//! Mixture-of-experts routing: grouping the (row, expert) pairs of a batch by expert.
use vstd::prelude::*;

verus! {

/// `(r, k)` names a slot: expert number `k` that row `r` is routed to.
pub open spec fn is_slot(routes: Seq<Vec<usize>>, r: int, k: int) -> bool {
    0 <= r < routes.len() && 0 <= k < routes[r]@.len()
}

/// The expert of a slot.
pub open spec fn expert_of(routes: Seq<Vec<usize>>, r: int, k: int) -> int {
    routes[r]@[k] as int
}

/// Slot order: by row, then by rank.
pub open spec fn slot_before(r1: int, k1: int, r2: int, k2: int) -> bool {
    r1 < r2 || (r1 == r2 && k1 < k2)
}

/// Every row is routed to experts of the bank.
pub open spec fn routes_valid(routes: Seq<Vec<usize>>, n_expert: int) -> bool {
    forall|r: int, k: int| is_slot(routes, r, k) ==> #[trigger] expert_of(routes, r, k) < n_expert
}

/// The tasks of one expert are slots of that expert, in slot order.
spec fn tasks_ok(routes: Seq<Vec<usize>>, tasks: Seq<(usize, usize)>, e: int) -> bool {
    &&& forall|i: int|
        0 <= i < tasks.len() ==> is_slot(routes, (#[trigger] tasks[i]).0 as int, tasks[i].1 as int) && expert_of(
            routes,
            tasks[i].0 as int,
            tasks[i].1 as int,
        ) == e
    &&& forall|i: int, j: int|
        0 <= i < j < tasks.len() ==> slot_before(
            (#[trigger] tasks[i]).0 as int,
            tasks[i].1 as int,
            (#[trigger] tasks[j]).0 as int,
            tasks[j].1 as int,
        )
}

/// Slot `(r, k)` is among the tasks of its expert.
spec fn is_filed(routes: Seq<Vec<usize>>, tasks: Seq<Vec<(usize, usize)>>, r: int, k: int) -> bool {
    exists|i: int|
        0 <= i < tasks[expert_of(routes, r, k)]@.len() && #[trigger] tasks[expert_of(routes, r, k)]@[i] == (
            r as usize,
            k as usize,
        )
}

/// The slots of each expert, in slot order.
fn expert_tasks(routes: &Vec<Vec<usize>>, n_expert: usize) -> (tasks: Vec<Vec<(usize, usize)>>)
    requires
        routes_valid(routes@, n_expert as int),
    ensures
        tasks@.len() == n_expert,
        forall|e: int| 0 <= e < n_expert ==> tasks_ok(routes@, (#[trigger] tasks@[e])@, e),
        forall|r: int, k: int| is_slot(routes@, r, k) ==> #[trigger] is_filed(routes@, tasks@, r, k),
{
    let mut tasks: Vec<Vec<(usize, usize)>> = Vec::new();
    let mut e: usize = 0;
    while e < n_expert
        invariant
            e <= n_expert,
            tasks@.len() == e,
            forall|i: int| 0 <= i < e ==> (#[trigger] tasks@[i])@.len() == 0,
        decreases n_expert - e,
    {
        tasks.push(Vec::new());
        e = e + 1;
    }
    let mut r: usize = 0;
    while r < routes.len()
        invariant
            r <= routes@.len(),
            routes_valid(routes@, n_expert as int),
            tasks@.len() == n_expert,
            forall|x: int| 0 <= x < n_expert ==> tasks_ok(routes@, (#[trigger] tasks@[x])@, x),
            forall|x: int, i: int|
                0 <= x < n_expert && 0 <= i < tasks@[x]@.len() ==> (#[trigger] tasks@[x]@[i]).0 < r,
            forall|a: int, b: int|
                is_slot(routes@, a, b) && a < r ==> #[trigger] is_filed(routes@, tasks@, a, b),
        decreases routes@.len() - r,
    {
        let row: &Vec<usize> = &routes[r];
        let mut k: usize = 0;
        while k < row.len()
            invariant
                r < routes@.len(),
                *row == routes@[r as int],
                k <= row@.len(),
                routes_valid(routes@, n_expert as int),
                tasks@.len() == n_expert,
                forall|x: int| 0 <= x < n_expert ==> tasks_ok(routes@, (#[trigger] tasks@[x])@, x),
                forall|x: int, i: int|
                    0 <= x < n_expert && 0 <= i < tasks@[x]@.len() ==> slot_before(
                        (#[trigger] tasks@[x]@[i]).0 as int,
                        tasks@[x]@[i].1 as int,
                        r as int,
                        k as int,
                    ),
                forall|a: int, b: int|
                    is_slot(routes@, a, b) && slot_before(a, b, r as int, k as int) ==> #[trigger] is_filed(
                        routes@,
                        tasks@,
                        a,
                        b,
                    ),
            decreases row@.len() - k,
        {
            let x: usize = row[k];
            assert(is_slot(routes@, r as int, k as int));
            assert(expert_of(routes@, r as int, k as int) == x);
            let ghost before = tasks@;
            tasks[x].push((r, k));
            proof {
                assert(tasks@[x as int]@ == before[x as int]@.push((r, k)));
                assert forall|y: int| 0 <= y < n_expert implies tasks_ok(routes@, (#[trigger] tasks@[y])@, y) by {
                    assert(tasks_ok(routes@, before[y]@, y));
                    if y != x {
                        assert(tasks@[y] == before[y]);
                    }
                }
                assert forall|a: int, b: int|
                    is_slot(routes@, a, b) && slot_before(a, b, r as int, k + 1) implies #[trigger] is_filed(
                    routes@,
                    tasks@,
                    a,
                    b,
                ) by {
                    let y = expert_of(routes@, a, b);
                    if a == r && b == k {
                        assert(tasks@[y]@[before[y]@.len() as int] == (a as usize, b as usize));
                    } else {
                        assert(is_filed(routes@, before, a, b));
                        let i = choose|i: int|
                            0 <= i < before[y]@.len() && #[trigger] before[y]@[i] == (a as usize, b as usize);
                        assert(tasks@[y]@[i] == (a as usize, b as usize));
                    }
                }
            }
            k = k + 1;
        }
        r = r + 1;
    }
    tasks
}

/// The pairs of one expert: `count` consecutive pairs from `p0` on.
#[derive(Clone, Copy)]
pub struct Bucket {
    pub expert: usize,
    pub p0: usize,
    pub count: usize,
}

/// The routed pairs of a batch, grouped by expert.
pub struct Pairs {
    /// One bucket for each expert with work, by rising expert number.
    pub buckets: Vec<Bucket>,
    /// The row of each pair.
    pub row: Vec<usize>,
    /// The rank of the pair's expert in its row.
    pub rank: Vec<usize>,
    /// The bucket of each pair.
    pub bucket: Vec<usize>,
    /// The place of each pair in its bucket.
    pub local: Vec<usize>,
    /// The pair of each slot.
    pub slot_pair: Vec<Vec<usize>>,
}

impl Pairs {
    /// The buckets are non-empty, follow each other without gaps and cover the pairs.
    pub open spec fn buckets_ok(&self) -> bool {
        let bs = self.buckets@;
        &&& forall|b: int| 0 <= b < bs.len() ==> 0 < (#[trigger] bs[b]).count
        &&& bs.len() > 0 ==> bs[0].p0 == 0
        &&& forall|b: int, c: int|
            0 <= b && c == b + 1 && c < bs.len() ==> (#[trigger] bs[c]).p0 == (#[trigger] bs[b]).p0 + bs[b].count
        &&& forall|b: int, c: int| 0 <= b < c < bs.len() ==> (#[trigger] bs[b]).expert < (#[trigger] bs[c]).expert
        &&& self.row@.len() == if bs.len() == 0 {
            0
        } else {
            bs[bs.len() - 1].p0 + bs[bs.len() - 1].count
        }
    }

    /// Pair `p` stands in its bucket at its place, and its slot is routed to the bucket's expert.
    pub open spec fn pair_ok(&self, routes: Seq<Vec<usize>>, p: int) -> bool {
        let b = self.bucket@[p] as int;
        &&& 0 <= b < self.buckets@.len()
        &&& self.local@[p] < self.buckets@[b].count
        &&& p == self.buckets@[b].p0 + self.local@[p]
        &&& is_slot(routes, self.row@[p] as int, self.rank@[p] as int)
        &&& expert_of(routes, self.row@[p] as int, self.rank@[p] as int) == self.buckets@[b].expert
    }

    /// Every pair is sound and every slot has exactly the pair that has the slot.
    pub open spec fn wf(&self, routes: Seq<Vec<usize>>) -> bool {
        &&& self.buckets_ok()
        &&& self.rank@.len() == self.row@.len()
        &&& self.bucket@.len() == self.row@.len()
        &&& self.local@.len() == self.row@.len()
        &&& forall|p: int| 0 <= p < self.row@.len() ==> #[trigger] self.pair_ok(routes, p)
        &&& forall|p: int|
            0 <= p < self.row@.len() ==> self.slot_pair@[#[trigger] self.row@[p] as int]@[self.rank@[p] as int] == p
        &&& forall|p: int, q: int|
            0 <= p < q < self.row@.len() && self.bucket@[p] == self.bucket@[q] ==> slot_before(
                #[trigger] self.row@[p] as int,
                self.rank@[p] as int,
                #[trigger] self.row@[q] as int,
                self.rank@[q] as int,
            )
        &&& self.slot_pair@.len() == routes.len()
        &&& forall|r: int| 0 <= r < routes.len() ==> (#[trigger] self.slot_pair@[r])@.len() == routes[r]@.len()
        &&& forall|r: int, k: int|
            is_slot(routes, r, k) ==> {
                let p = #[trigger] self.slot_pair@[r]@[k] as int;
                &&& 0 <= p < self.row@.len()
                &&& self.row@[p] == r
                &&& self.rank@[p] == k
            }
    }
}

/// A list of `MAX` for each row, one entry for each of its experts.
fn empty_slots(routes: &Vec<Vec<usize>>) -> (slots: Vec<Vec<usize>>)
    ensures
        slots@.len() == routes@.len(),
        forall|r: int| 0 <= r < routes@.len() ==> (#[trigger] slots@[r])@.len() == routes@[r]@.len(),
{
    let mut slots: Vec<Vec<usize>> = Vec::new();
    let mut r: usize = 0;
    while r < routes.len()
        invariant
            r <= routes@.len(),
            slots@.len() == r,
            forall|q: int| 0 <= q < r ==> (#[trigger] slots@[q])@.len() == routes@[q]@.len(),
        decreases routes@.len() - r,
    {
        let n: usize = routes[r].len();
        let mut row: Vec<usize> = Vec::new();
        let mut k: usize = 0;
        while k < n
            invariant
                k <= n,
                row@.len() == k,
            decreases n - k,
        {
            row.push(usize::MAX);
            k = k + 1;
        }
        slots.push(row);
        r = r + 1;
    }
    slots
}

/// The pairs of an expert stand, in slot order, from `off` on.
spec fn placed(out: Pairs, tasks: Seq<(usize, usize)>, off: int) -> bool {
    &&& 0 <= off
    &&& off + tasks.len() <= out.row@.len()
    &&& forall|i: int|
        0 <= i < tasks.len() ==> out.row@[off + i] == (#[trigger] tasks[i]).0 && out.rank@[off + i] == tasks[i].1
}

/// The lists of the pairs have one length, and a slot list has an entry for each slot.
spec fn lengths_ok(out: Pairs, routes: Seq<Vec<usize>>) -> bool {
    &&& out.rank@.len() == out.row@.len()
    &&& out.bucket@.len() == out.row@.len()
    &&& out.local@.len() == out.row@.len()
    &&& out.slot_pair@.len() == routes.len()
    &&& forall|r: int| 0 <= r < routes.len() ==> (#[trigger] out.slot_pair@[r])@.len() == routes[r]@.len()
}

/// The slot of every pair has that pair.
spec fn slots_ok(out: Pairs) -> bool {
    forall|p: int|
        0 <= p < out.row@.len() ==> out.slot_pair@[#[trigger] out.row@[p] as int]@[out.rank@[p] as int] == p
}

/// The pairs of a bucket are in slot order.
spec fn order_ok(out: Pairs) -> bool {
    forall|p: int, q: int|
        0 <= p < q < out.row@.len() && out.bucket@[p] == out.bucket@[q] ==> slot_before(
            #[trigger] out.row@[p] as int,
            out.rank@[p] as int,
            #[trigger] out.row@[q] as int,
            out.rank@[q] as int,
        )
}

/// The experts below `e` are grouped.
spec fn grouped(out: Pairs, routes: Seq<Vec<usize>>, e: int) -> bool {
    &&& lengths_ok(out, routes)
    &&& out.buckets_ok()
    &&& forall|p: int| 0 <= p < out.row@.len() ==> #[trigger] out.pair_ok(routes, p)
    &&& slots_ok(out)
    &&& order_ok(out)
    &&& forall|b: int| 0 <= b < out.buckets@.len() ==> (#[trigger] out.buckets@[b]).expert < e
}

/// Pair `p` of `out` is pair `p` of `start`.
spec fn same_pair(start: Pairs, out: Pairs, p: int) -> bool {
    &&& out.row@[p] == start.row@[p]
    &&& out.rank@[p] == start.rank@[p]
    &&& out.bucket@[p] == start.bucket@[p]
    &&& out.local@[p] == start.local@[p]
}

/// Pair `p` of `out` is task `p - p0` of the bucket behind those of `start`.
spec fn new_pair(start: Pairs, out: Pairs, todo: Seq<(usize, usize)>, p: int) -> bool {
    &&& out.row@[p] == todo[p - start.row@.len()].0
    &&& out.rank@[p] == todo[p - start.row@.len()].1
    &&& out.bucket@[p] == start.buckets@.len()
    &&& out.local@[p] == p - start.row@.len()
}

/// `out` is `start` with the first `n` pairs of the next expert behind it.
spec fn appended(start: Pairs, out: Pairs, todo: Seq<(usize, usize)>, n: int) -> bool {
    &&& out.row@.len() == start.row@.len() + n
    &&& forall|p: int| 0 <= p < start.row@.len() ==> #[trigger] same_pair(start, out, p)
    &&& forall|p: int|
        start.row@.len() <= p < start.row@.len() + n ==> #[trigger] new_pair(start, out, todo, p)
}

/// The bucket of an expert with work follows the others.
spec fn bucket_added(start: Pairs, out: Pairs, n: int, e: int) -> bool {
    if n > 0 {
        &&& out.buckets@.len() == start.buckets@.len() + 1
        &&& forall|b: int| 0 <= b < start.buckets@.len() ==> #[trigger] out.buckets@[b] == start.buckets@[b]
        &&& out.buckets@[start.buckets@.len() as int].expert == e
        &&& out.buckets@[start.buckets@.len() as int].p0 == start.row@.len()
        &&& out.buckets@[start.buckets@.len() as int].count == n
    } else {
        out.buckets@ == start.buckets@
    }
}

proof fn lemma_added_buckets(start: Pairs, out: Pairs, routes: Seq<Vec<usize>>, todo: Seq<(usize, usize)>, e: int)
    requires
        grouped(start, routes, e),
        appended(start, out, todo, todo.len() as int),
        bucket_added(start, out, todo.len() as int, e),
    ensures
        out.buckets_ok(),
        forall|b: int| 0 <= b < out.buckets@.len() ==> (#[trigger] out.buckets@[b]).expert < e + 1,
{
    let bi = start.buckets@.len() as int;
    if todo.len() > 0 {
        assert forall|b: int, c: int| 0 <= b < c < out.buckets@.len() implies (#[trigger] out.buckets@[b]).expert < (
        #[trigger] out.buckets@[c]).expert by {
            assert(out.buckets@[b] == start.buckets@[b]);
            if c < bi {
                assert(out.buckets@[c] == start.buckets@[c]);
            }
        }
        assert forall|b: int, c: int| 0 <= b && c == b + 1 && c < out.buckets@.len() implies (
        #[trigger] out.buckets@[c]).p0 == (#[trigger] out.buckets@[b]).p0 + out.buckets@[b].count by {
            assert(out.buckets@[b] == start.buckets@[b]);
            if c < bi {
                assert(out.buckets@[c] == start.buckets@[c]);
            }
        }
        if bi > 0 {
            assert(out.buckets@[0] == start.buckets@[0]);
        }
        assert forall|b: int| 0 <= b < out.buckets@.len() implies 0 < (#[trigger] out.buckets@[b]).count
            && out.buckets@[b].expert < e + 1 by {
            if b < bi {
                assert(out.buckets@[b] == start.buckets@[b]);
            }
        }
    }
}

proof fn lemma_added_pairs(start: Pairs, out: Pairs, routes: Seq<Vec<usize>>, todo: Seq<(usize, usize)>, e: int)
    requires
        grouped(start, routes, e),
        tasks_ok(routes, todo, e),
        lengths_ok(out, routes),
        appended(start, out, todo, todo.len() as int),
        bucket_added(start, out, todo.len() as int, e),
    ensures
        forall|p: int| 0 <= p < out.row@.len() ==> #[trigger] out.pair_ok(routes, p),
        order_ok(out),
{
    let p0 = start.row@.len() as int;
    let bi = start.buckets@.len() as int;
    assert forall|p: int| 0 <= p < out.row@.len() implies #[trigger] out.pair_ok(routes, p) by {
        if p < p0 {
            assert(start.pair_ok(routes, p));
            assert(same_pair(start, out, p));
            let b = start.bucket@[p] as int;
            assert(out.buckets@[b] == start.buckets@[b]);
        } else {
            assert(new_pair(start, out, todo, p));
            assert(is_slot(routes, todo[p - p0].0 as int, todo[p - p0].1 as int));
        }
    }
    assert forall|p: int, q: int| 0 <= p < q < out.row@.len() && out.bucket@[p] == out.bucket@[q] implies slot_before(
        #[trigger] out.row@[p] as int,
        out.rank@[p] as int,
        #[trigger] out.row@[q] as int,
        out.rank@[q] as int,
    ) by {
        if q < p0 {
            assert(same_pair(start, out, p));
            assert(same_pair(start, out, q));
            assert(slot_before(
                start.row@[p] as int,
                start.rank@[p] as int,
                start.row@[q] as int,
                start.rank@[q] as int,
            ));
        } else if p < p0 {
            assert(same_pair(start, out, p));
            assert(new_pair(start, out, todo, q));
            assert(start.pair_ok(routes, p));
        } else {
            assert(new_pair(start, out, todo, p));
            assert(new_pair(start, out, todo, q));
            assert(slot_before(
                todo[p - p0].0 as int,
                todo[p - p0].1 as int,
                todo[q - p0].0 as int,
                todo[q - p0].1 as int,
            ));
        }
    }
}

/// One more pair.
proof fn lemma_appended_next(start: Pairs, prev: Pairs, out: Pairs, todo: Seq<(usize, usize)>, i: int)
    requires
        appended(start, prev, todo, i),
        prev.rank@.len() == prev.row@.len(),
        prev.bucket@.len() == prev.row@.len(),
        prev.local@.len() == prev.row@.len(),
        0 <= i < todo.len(),
        out.row@ == prev.row@.push(todo[i].0),
        out.rank@ == prev.rank@.push(todo[i].1),
        out.bucket@ == prev.bucket@.push(out.bucket@.last()),
        out.local@ == prev.local@.push(out.local@.last()),
        out.bucket@.last() == start.buckets@.len(),
        out.local@.last() == i,
    ensures
        appended(start, out, todo, i + 1),
{
    assert forall|p: int| 0 <= p < start.row@.len() implies #[trigger] same_pair(start, out, p) by {
        assert(same_pair(start, prev, p));
    }
    assert forall|p: int| start.row@.len() <= p < start.row@.len() + i + 1 implies #[trigger] new_pair(
        start,
        out,
        todo,
        p,
    ) by {
        if p < start.row@.len() + i {
            assert(new_pair(start, prev, todo, p));
        }
    }
}

/// The buckets play no part.
proof fn lemma_appended_same(start: Pairs, prev: Pairs, out: Pairs, todo: Seq<(usize, usize)>, n: int)
    requires
        appended(start, prev, todo, n),
        out.row == prev.row,
        out.rank == prev.rank,
        out.bucket == prev.bucket,
        out.local == prev.local,
    ensures
        appended(start, out, todo, n),
{
    assert forall|p: int| 0 <= p < start.row@.len() implies #[trigger] same_pair(start, out, p) by {
        assert(same_pair(start, prev, p));
    }
    assert forall|p: int| start.row@.len() <= p < start.row@.len() + n implies #[trigger] new_pair(
        start,
        out,
        todo,
        p,
    ) by {
        assert(new_pair(start, prev, todo, p));
    }
}

/// The next task of expert `e` is the slot of no pair so far.
proof fn lemma_fresh_slot(
    start: Pairs,
    out: Pairs,
    routes: Seq<Vec<usize>>,
    todo: Seq<(usize, usize)>,
    e: int,
    i: int,
    q: int,
)
    requires
        grouped(start, routes, e),
        tasks_ok(routes, todo, e),
        appended(start, out, todo, i),
        0 <= i < todo.len(),
        0 <= q < out.row@.len(),
    ensures
        !(out.row@[q] == todo[i].0 && out.rank@[q] == todo[i].1),
        is_slot(routes, out.row@[q] as int, out.rank@[q] as int),
{
    let p0 = start.row@.len() as int;
    if q < p0 {
        assert(same_pair(start, out, q));
        assert(start.pair_ok(routes, q));
        let b = start.bucket@[q] as int;
        assert(start.buckets@[b].expert < e);
    } else {
        assert(new_pair(start, out, todo, q));
        assert(slot_before(todo[q - p0].0 as int, todo[q - p0].1 as int, todo[i].0 as int, todo[i].1 as int));
    }
}

/// Adds the pairs and the bucket of one expert.
fn add_expert(out: &mut Pairs, routes: &Vec<Vec<usize>>, todo: &Vec<(usize, usize)>, e: usize)
    requires
        grouped(*old(out), routes@, e as int),
        tasks_ok(routes@, todo@, e as int),
    ensures
        grouped(*final(out), routes@, e + 1),
        appended(*old(out), *final(out), todo@, todo@.len() as int),
{
    let ghost start = *out;
    let p0: usize = out.row.len();
    let bi: usize = out.buckets.len();
    let n: usize = todo.len();
    let mut i: usize = 0;
    while i < n
        invariant
            i <= n,
            n == todo@.len(),
            grouped(start, routes@, e as int),
            tasks_ok(routes@, todo@, e as int),
            p0 == start.row@.len(),
            bi == start.buckets@.len(),
            out.buckets@ == start.buckets@,
            lengths_ok(*out, routes@),
            appended(start, *out, todo@, i as int),
            slots_ok(*out),
        decreases n - i,
    {
        let (r, k) = todo[i];
        assert(is_slot(routes@, todo@[i as int].0 as int, todo@[i as int].1 as int));
        let p: usize = out.row.len();
        let ghost prev = *out;
        out.slot_pair[r].set(k, p);
        out.row.push(r);
        out.rank.push(k);
        out.bucket.push(bi);
        out.local.push(i);
        proof {
            assert forall|q: int| 0 <= q < out.row@.len() implies out.slot_pair@[#[trigger] out.row@[q] as int]@[
            out.rank@[q] as int] == q by {
                if q < p {
                    lemma_fresh_slot(start, prev, routes@, todo@, e as int, i as int, q);
                    assert(out.row@[q] == prev.row@[q]);
                    assert(prev.slot_pair@[prev.row@[q] as int]@[prev.rank@[q] as int] == q);
                }
            }
            lemma_appended_next(start, prev, *out, todo@, i as int);
        }
        i = i + 1;
    }
    let ghost filled = *out;
    if n > 0 {
        out.buckets.push(Bucket { expert: e, p0, count: n });
    }
    proof {
        lemma_appended_same(start, filled, *out, todo@, n as int);
        lemma_added_buckets(start, *out, routes@, todo@, e as int);
        lemma_added_pairs(start, *out, routes@, todo@, e as int);
    }
}

/// Slots placed for every expert are slots with pairs.
proof fn lemma_all_placed(
    out: Pairs,
    routes: Seq<Vec<usize>>,
    tasks: Seq<Vec<(usize, usize)>>,
    off: Seq<int>,
    r: int,
    k: int,
)
    requires
        slots_ok(out),
        is_slot(routes, r, k),
        is_filed(routes, tasks, r, k),
        0 <= r <= usize::MAX,
        0 <= k <= usize::MAX,
        placed(out, tasks[expert_of(routes, r, k)]@, off[expert_of(routes, r, k)]),
    ensures
        ({
            let p = out.slot_pair@[r]@[k] as int;
            &&& 0 <= p < out.row@.len()
            &&& out.row@[p] == r
            &&& out.rank@[p] == k
        }),
{
    let x = expert_of(routes, r, k);
    let i = choose|i: int| 0 <= i < tasks[x]@.len() && #[trigger] tasks[x]@[i] == (r as usize, k as usize);
    let p = off[x] + i;
    assert(out.row@[p] == tasks[x]@[i].0);
}

/// Groups the slots of a batch by expert: every slot becomes one pair, the pairs of an expert are
/// consecutive and in slot order, and experts without work have no bucket.
pub fn group_pairs(routes: &Vec<Vec<usize>>, n_expert: usize) -> (out: Pairs)
    requires
        routes_valid(routes@, n_expert as int),
    ensures
        out.wf(routes@),
{
    let tasks: Vec<Vec<(usize, usize)>> = expert_tasks(routes, n_expert);
    let mut out: Pairs = Pairs {
        buckets: Vec::new(),
        row: Vec::new(),
        rank: Vec::new(),
        bucket: Vec::new(),
        local: Vec::new(),
        slot_pair: empty_slots(routes),
    };
    let ghost mut off: Seq<int> = Seq::empty();
    let mut e: usize = 0;
    while e < n_expert
        invariant
            e <= n_expert,
            tasks@.len() == n_expert,
            forall|x: int| 0 <= x < n_expert ==> tasks_ok(routes@, (#[trigger] tasks@[x])@, x),
            grouped(out, routes@, e as int),
            off.len() == e,
            forall|x: int| 0 <= x < e ==> placed(out, (#[trigger] tasks@[x])@, off[x]),
        decreases n_expert - e,
    {
        let ghost start = out;
        add_expert(&mut out, routes, &tasks[e], e);
        proof {
            off = off.push(start.row@.len() as int);
            assert forall|x: int| 0 <= x < e + 1 implies placed(out, (#[trigger] tasks@[x])@, off[x]) by {
                if x < e {
                    assert(placed(start, tasks@[x]@, off[x]));
                    assert forall|j: int| 0 <= j < tasks@[x]@.len() implies out.row@[off[x] + j] == (
                    #[trigger] tasks@[x]@[j]).0 && out.rank@[off[x] + j] == tasks@[x]@[j].1 by {
                        assert(start.row@[off[x] + j] == tasks@[x]@[j].0);
                        assert(same_pair(start, out, off[x] + j));
                    }
                } else {
                    assert forall|j: int| 0 <= j < tasks@[x]@.len() implies out.row@[off[x] + j] == (
                    #[trigger] tasks@[x]@[j]).0 && out.rank@[off[x] + j] == tasks@[x]@[j].1 by {
                        assert(new_pair(start, out, tasks@[x]@, off[x] + j));
                    }
                }
            }
        }
        e = e + 1;
    }
    proof {
        assert forall|r: int, k: int| is_slot(routes@, r, k) implies {
            let p = #[trigger] out.slot_pair@[r]@[k] as int;
            &&& 0 <= p < out.row@.len()
            &&& out.row@[p] == r
            &&& out.rank@[p] == k
        } by {
            assert(is_filed(routes@, tasks@, r, k));
            assert(routes@.len() <= usize::MAX && routes@[r]@.len() <= usize::MAX) by {
                assert(routes.len() <= usize::MAX);
                assert(routes[r].len() <= usize::MAX);
            }
            lemma_all_placed(out, routes@, tasks@, off, r, k);
        }
    }
    out
}

/// A bucket ends before the ones behind it and inside the pairs.
pub proof fn lemma_bucket_ends(pairs: &Pairs, b: int)
    requires
        pairs.buckets_ok(),
        0 <= b < pairs.buckets@.len(),
    ensures
        pairs.buckets@[b].p0 + pairs.buckets@[b].count <= pairs.row@.len(),
        forall|c: int|
            b < c < pairs.buckets@.len() ==> pairs.buckets@[b].p0 + pairs.buckets@[b].count <= (
            #[trigger] pairs.buckets@[c]).p0,
    decreases pairs.buckets@.len() - b,
{
    let bs = pairs.buckets@;
    if b + 1 < bs.len() {
        lemma_bucket_ends(pairs, b + 1);
        assert(bs[b + 1].p0 == bs[b].p0 + bs[b].count);
    }
}

/// Slots in the order in which pairs stand: by expert, then in slot order.
spec fn stands_before(routes: Seq<Vec<usize>>, r1: int, k1: int, r2: int, k2: int) -> bool {
    ||| expert_of(routes, r1, k1) < expert_of(routes, r2, k2)
    ||| expert_of(routes, r1, k1) == expert_of(routes, r2, k2) && slot_before(r1, k1, r2, k2)
}

/// Pairs stand by expert, then in slot order.
proof fn lemma_pairs_sorted(a: &Pairs, routes: Seq<Vec<usize>>, p: int, q: int)
    requires
        a.wf(routes),
        0 <= p < q < a.row@.len(),
    ensures
        stands_before(routes, a.row@[p] as int, a.rank@[p] as int, a.row@[q] as int, a.rank@[q] as int),
{
    assert(a.pair_ok(routes, p));
    assert(a.pair_ok(routes, q));
    let (b, c) = (a.bucket@[p] as int, a.bucket@[q] as int);
    if b == c {
        assert(slot_before(a.row@[p] as int, a.rank@[p] as int, a.row@[q] as int, a.rank@[q] as int));
    } else if b < c {
        assert(a.buckets@[b].expert < a.buckets@[c].expert);
    } else {
        lemma_bucket_ends(a, c);
        assert(a.buckets@[c].p0 + a.buckets@[c].count <= a.buckets@[b].p0);
    }
}

/// Pair `p` is the same slot in both.
spec fn same_slot(a: &Pairs, b: &Pairs, p: int) -> bool {
    a.row@[p] == b.row@[p] && a.rank@[p] == b.rank@[p]
}

/// Where the first `n` pairs agree and the next do not, the slot of the first list's next pair
/// stands behind that of the second's.
proof fn lemma_slots_step(a: &Pairs, b: &Pairs, routes: Seq<Vec<usize>>, n: int)
    requires
        a.wf(routes),
        b.wf(routes),
        0 <= n < a.row@.len(),
        forall|p: int| 0 <= p < n ==> #[trigger] same_slot(a, b, p),
        n < b.row@.len() ==> !same_slot(a, b, n),
    ensures
        n < b.row@.len(),
        stands_before(routes, b.row@[n] as int, b.rank@[n] as int, a.row@[n] as int, a.rank@[n] as int),
{
    assert(a.pair_ok(routes, n));
    let (r, k) = (a.row@[n] as int, a.rank@[n] as int);
    let m = b.slot_pair@[r]@[k] as int;
    assert(0 <= m < b.row@.len() && b.row@[m] == r && b.rank@[m] == k);
    if m < n {
        assert(same_slot(a, b, m));
        assert(a.slot_pair@[a.row@[m] as int]@[a.rank@[m] as int] == m);
        assert(a.slot_pair@[a.row@[n] as int]@[a.rank@[n] as int] == n);
    }
    assert(m > n);
    lemma_pairs_sorted(b, routes, n, m);
}

/// The pairs of two groupings of the same routes are the same slots.
proof fn lemma_slots_agree(a: &Pairs, b: &Pairs, routes: Seq<Vec<usize>>, n: int)
    requires
        a.wf(routes),
        b.wf(routes),
        0 <= n <= a.row@.len(),
    ensures
        n <= b.row@.len(),
        forall|p: int| 0 <= p < n ==> #[trigger] same_slot(a, b, p),
    decreases n,
{
    if n > 0 {
        lemma_slots_agree(a, b, routes, n - 1);
        if n - 1 >= b.row@.len() || !same_slot(a, b, n - 1) {
            lemma_slots_step(a, b, routes, n - 1);
            assert forall|p: int| 0 <= p < n - 1 implies #[trigger] same_slot(b, a, p) by {
                assert(same_slot(a, b, p));
            }
            lemma_slots_step(b, a, routes, n - 1);
        }
    }
}

/// The bucket that holds a pair is the one whose range it lies in.
proof fn lemma_bucket_of(a: &Pairs, routes: Seq<Vec<usize>>, c: int, p: int)
    requires
        a.wf(routes),
        0 <= c < a.buckets@.len(),
        a.buckets@[c].p0 <= p < a.buckets@[c].p0 + a.buckets@[c].count,
    ensures
        0 <= p < a.row@.len(),
        a.bucket@[p] == c,
        a.local@[p] == p - a.buckets@[c].p0,
        expert_of(routes, a.row@[p] as int, a.rank@[p] as int) == a.buckets@[c].expert,
{
    lemma_bucket_ends(a, c);
    assert(a.pair_ok(routes, p));
    let d = a.bucket@[p] as int;
    lemma_bucket_ends(a, d);
    if c < d {
        assert(a.buckets@[c].p0 + a.buckets@[c].count <= a.buckets@[d].p0);
    }
    if d < c {
        assert(a.buckets@[d].p0 + a.buckets@[d].count <= a.buckets@[c].p0);
    }
}

/// Where a bucket starts at the same pair in both, it has the same expert, and it is no longer in
/// the second than in the first.
proof fn lemma_bucket_no_longer(a: &Pairs, b: &Pairs, routes: Seq<Vec<usize>>, c: int)
    requires
        a.wf(routes),
        b.wf(routes),
        forall|p: int| 0 <= p < a.row@.len() ==> #[trigger] same_slot(a, b, p),
        a.row@.len() == b.row@.len(),
        0 <= c < a.buckets@.len(),
        c < b.buckets@.len(),
        a.buckets@[c].p0 == b.buckets@[c].p0,
    ensures
        a.buckets@[c].expert == b.buckets@[c].expert,
        b.buckets@[c].count <= a.buckets@[c].count,
{
    let (x, y) = (a.buckets@[c], b.buckets@[c]);
    lemma_bucket_of(a, routes, c, x.p0 as int);
    lemma_bucket_of(b, routes, c, y.p0 as int);
    assert(same_slot(a, b, x.p0 as int));
    if x.count < y.count {
        let p = x.p0 + x.count;
        lemma_bucket_of(b, routes, c, p);
        lemma_bucket_ends(a, c);
        assert(a.pair_ok(routes, p));
        let d = a.bucket@[p] as int;
        assert(same_slot(a, b, p));
        if d < c {
            lemma_bucket_ends(a, d);
            assert(a.buckets@[d].p0 + a.buckets@[d].count <= a.buckets@[c].p0);
        } else if c < d {
            assert(a.buckets@[c].expert < a.buckets@[d].expert);
        }
    }
}

/// The first `n` buckets are the same.
proof fn lemma_buckets_agree(a: &Pairs, b: &Pairs, routes: Seq<Vec<usize>>, n: int)
    requires
        a.wf(routes),
        b.wf(routes),
        forall|p: int| 0 <= p < a.row@.len() ==> #[trigger] same_slot(a, b, p),
        a.row@.len() == b.row@.len(),
        0 <= n <= a.buckets@.len(),
    ensures
        n <= b.buckets@.len(),
        forall|c: int| 0 <= c < n ==> #[trigger] a.buckets@[c] == b.buckets@[c],
    decreases n,
{
    if n > 0 {
        let c = n - 1;
        lemma_buckets_agree(a, b, routes, c);
        lemma_bucket_ends(a, c);
        if c > 0 {
            assert(a.buckets@[c - 1] == b.buckets@[c - 1]);
            assert(a.buckets@[c].p0 == a.buckets@[c - 1].p0 + a.buckets@[c - 1].count);
            if c < b.buckets@.len() {
                assert(b.buckets@[c].p0 == b.buckets@[c - 1].p0 + b.buckets@[c - 1].count);
            }
        }
        assert(c < b.buckets@.len());
        assert forall|p: int| 0 <= p < b.row@.len() implies #[trigger] same_slot(b, a, p) by {
            assert(same_slot(a, b, p));
        }
        lemma_bucket_no_longer(a, b, routes, c);
        lemma_bucket_no_longer(b, a, routes, c);
    }
}

/// The routes alone decide the grouping: which pairs there are, in which order and buckets they
/// stand, and which pair each slot has.
pub proof fn law_grouping_unique(a: &Pairs, b: &Pairs, routes: Seq<Vec<usize>>)
    requires
        a.wf(routes),
        b.wf(routes),
    ensures
        a.buckets@ == b.buckets@,
        a.row@ == b.row@,
        a.rank@ == b.rank@,
        a.bucket@ == b.bucket@,
        a.local@ == b.local@,
        forall|r: int| 0 <= r < routes.len() ==> (#[trigger] a.slot_pair@[r])@ == b.slot_pair@[r]@,
{
    lemma_slots_agree(a, b, routes, a.row@.len() as int);
    lemma_slots_agree(b, a, routes, b.row@.len() as int);
    lemma_buckets_agree(a, b, routes, a.buckets@.len() as int);
    assert forall|p: int| 0 <= p < b.row@.len() implies #[trigger] same_slot(b, a, p) by {
        assert(same_slot(a, b, p));
    }
    lemma_buckets_agree(b, a, routes, b.buckets@.len() as int);
    assert(a.buckets@ =~= b.buckets@);
    assert forall|p: int| 0 <= p < a.row@.len() implies a.row@[p] == b.row@[p] && a.rank@[p] == b.rank@[p]
        && a.bucket@[p] == b.bucket@[p] && a.local@[p] == b.local@[p] by {
        assert(same_slot(a, b, p));
        assert(a.pair_ok(routes, p));
        lemma_bucket_of(b, routes, a.bucket@[p] as int, p);
    }
    assert(a.row@ =~= b.row@ && a.rank@ =~= b.rank@ && a.bucket@ =~= b.bucket@ && a.local@ =~= b.local@);
    assert forall|r: int| 0 <= r < routes.len() implies (#[trigger] a.slot_pair@[r])@ == b.slot_pair@[r]@ by {
        assert forall|k: int| 0 <= k < routes[r]@.len() implies a.slot_pair@[r]@[k] == b.slot_pair@[r]@[k] by {
            assert(is_slot(routes, r, k));
            let p = a.slot_pair@[r]@[k] as int;
            assert(same_slot(a, b, p));
            assert(b.slot_pair@[b.row@[p] as int]@[b.rank@[p] as int] == p);
        }
        assert(a.slot_pair@[r]@ =~= b.slot_pair@[r]@);
    }
}

/// Every slot of every row has one pair, in the bucket of the slot's own expert.
pub proof fn law_every_slot_is_paired(routes: &Vec<Vec<usize>>, n_expert: usize, out: Pairs, r: int, k: int)
    requires
        call_ensures(group_pairs, (routes, n_expert), out),
        0 <= r < routes@.len(),
        0 <= k < routes@[r]@.len(),
    ensures
        out.slot_pair@.len() == routes@.len(),
        out.slot_pair@[r]@.len() == routes@[r]@.len(),
        ({
            let p = out.slot_pair@[r]@[k] as int;
            let bk = out.buckets@[out.bucket@[p] as int];
            &&& p < out.row@.len()
            &&& out.row@[p] == r
            &&& out.rank@[p] == k
            &&& out.bucket@[p] < out.buckets@.len()
            &&& bk.expert == routes@[r]@[k]
            &&& out.local@[p] < bk.count
            &&& p == bk.p0 + out.local@[p]
        }),
{
    assert(is_slot(routes@, r, k));
    let p = out.slot_pair@[r]@[k] as int;
    assert(out.pair_ok(routes@, p));
}

/// The pairs are ordered by their experts, then by their rows, then by their ranks; every pair is
/// that of a slot.
pub proof fn law_pairs_are_ordered(routes: &Vec<Vec<usize>>, n_expert: usize, out: Pairs, p: int, q: int)
    requires
        call_ensures(group_pairs, (routes, n_expert), out),
        0 <= p < q < out.row@.len(),
    ensures
        out.row@[p] < routes@.len(),
        out.rank@[p] < routes@[out.row@[p] as int]@.len(),
        out.row@[q] < routes@.len(),
        out.rank@[q] < routes@[out.row@[q] as int]@.len(),
        ({
            let x = routes@[out.row@[p] as int]@[out.rank@[p] as int];
            let y = routes@[out.row@[q] as int]@[out.rank@[q] as int];
            &&& x <= y
            &&& x == y ==> out.row@[p] < out.row@[q] || out.row@[p] == out.row@[q] && out.rank@[p] < out.rank@[q]
        }),
{
    assert(out.pair_ok(routes@, p) && out.pair_ok(routes@, q));
    let (b, c) = (out.bucket@[p] as int, out.bucket@[q] as int);
    lemma_bucket_ends(&out, b);
    lemma_bucket_ends(&out, c);
    if b > c {
        assert(out.buckets@[c].p0 + out.buckets@[c].count <= out.buckets@[b].p0);
    }
    if b < c {
        assert(out.buckets@[b].expert < out.buckets@[c].expert);
    }
}

/// A bucket has a pair at least, starts where the one before ends, and the last ends with the pairs.
pub proof fn law_buckets_follow(routes: &Vec<Vec<usize>>, n_expert: usize, out: Pairs, b: int)
    requires
        call_ensures(group_pairs, (routes, n_expert), out),
        0 <= b < out.buckets@.len(),
    ensures
        out.buckets@[b].count > 0,
        b == 0 ==> out.buckets@[b].p0 == 0,
        b > 0 ==> out.buckets@[b].p0 == out.buckets@[b - 1].p0 + out.buckets@[b - 1].count && out.buckets@[b - 1].expert
            < out.buckets@[b].expert,
        b == out.buckets@.len() - 1 ==> out.buckets@[b].p0 + out.buckets@[b].count == out.row@.len(),
{
}

} // verus!
