//! The staged expert pipeline: where each expert's outputs stand, how the work is cut into tasks,
//! and the expert banks against the routed activation rows.
use vstd::prelude::*;
use vstd::arithmetic::div_mod::{lemma_fundamental_div_mod, lemma_mod_bound};
use crate::bits::{block, block_of};
use crate::dispatch::{is_row_batch, is_row_dot, Tables};
use crate::dtype::DType;
use crate::format::Term;
use crate::gemm::{expert_gemm_range, is_gemm, ExpertActs};
use crate::quant::{Q8, Q8x32};
use crate::route::{expert_of, is_slot, lemma_bucket_ends, Bucket, Pairs};

verus! {

/// The flat place of output `o` of local pair `i` in a bucket: a bucket of `count` pairs from pair
/// `p0` on takes `out_f * count` places from `out_f * p0` on, output by output.
pub open spec fn place_of(out_f: int, bk: Bucket, o: int, i: int) -> int {
    out_f * bk.p0 + o * bk.count + i
}

/// Where the outputs of each bucket start, and where those of the last end.
pub fn out_offsets(pairs: &Pairs, out_f: usize) -> (off: Vec<usize>)
    requires
        pairs.buckets_ok(),
        out_f * pairs.row@.len() <= usize::MAX,
    ensures
        off@.len() == pairs.buckets@.len() + 1,
        forall|b: int| 0 <= b < pairs.buckets@.len() ==> #[trigger] off@[b] == out_f * pairs.buckets@[b].p0,
        off@[pairs.buckets@.len() as int] == out_f * pairs.row@.len(),
{
    let n: usize = pairs.buckets.len();
    let mut off: Vec<usize> = Vec::new();
    let mut at: usize = 0;
    off.push(0);
    let mut b: usize = 0;
    while b < n
        invariant
            b <= n,
            n == pairs.buckets@.len(),
            pairs.buckets_ok(),
            out_f * pairs.row@.len() <= usize::MAX,
            off@.len() == b + 1,
            off@[b as int] == at,
            b < n ==> at == out_f * pairs.buckets@[b as int].p0,
            b == n ==> at == out_f * pairs.row@.len(),
            forall|c: int| 0 <= c < b ==> #[trigger] off@[c] == out_f * pairs.buckets@[c].p0,
        decreases n - b,
    {
        let bk: Bucket = pairs.buckets[b];
        proof {
            lemma_bucket_ends(pairs, b as int);
            assert(out_f * (bk.p0 + bk.count) == out_f * bk.p0 + out_f * bk.count) by (nonlinear_arith);
            assert(out_f * (bk.p0 + bk.count) <= out_f * pairs.row@.len()) by (nonlinear_arith)
                requires
                    bk.p0 + bk.count <= pairs.row@.len(),
            ;
            assert(0 <= out_f * bk.count && 0 <= out_f * bk.p0) by (nonlinear_arith);
            if b + 1 < n {
                assert(pairs.buckets@[b + 1].p0 == pairs.buckets@[b as int].p0 + pairs.buckets@[b as int].count);
            }
        }
        at = at + out_f * bk.count;
        off.push(at);
        b = b + 1;
    }
    proof {
        if n == 0 {
            assert(out_f * 0 == 0) by (nonlinear_arith);
        }
    }
    off
}

/// Output rows `o0` up to `o1` of one bucket.
#[derive(Clone, Copy, PartialEq, Eq, Structural, Debug)]
pub struct GemmTask {
    pub bucket: usize,
    pub o0: usize,
    pub o1: usize,
}

/// The number of tasks of a bucket.
pub open spec fn tasks_per_bucket(out_f: int) -> int {
    (out_f + 63) / 64
}

/// Chunk `c` of bucket `b`: 64 rows, or what is left of `out_f`.
pub open spec fn is_chunk(t: GemmTask, b: int, c: int, out_f: int) -> bool {
    &&& t.bucket == b
    &&& t.o0 == 64 * c
    &&& t.o1 == if 64 * c + 64 < out_f {
        64 * c + 64
    } else {
        out_f
    }
}

/// The tasks are the chunks of the buckets, bucket by bucket.
pub open spec fn are_gemm_tasks(tasks: Seq<GemmTask>, n_buckets: int, out_f: int) -> bool {
    &&& tasks.len() == n_buckets * tasks_per_bucket(out_f)
    &&& forall|b: int, c: int|
        0 <= b < n_buckets && 0 <= c < tasks_per_bucket(out_f) ==> is_chunk(
            #[trigger] tasks[b * tasks_per_bucket(out_f) + c],
            b,
            c,
            out_f,
        )
}

/// The task list of a stage.
pub fn gemm_tasks(n_buckets: usize, out_f: usize) -> (tasks: Vec<GemmTask>)
    ensures
        are_gemm_tasks(tasks@, n_buckets as int, out_f as int),
{
    let ghost per = tasks_per_bucket(out_f as int);
    let mut tasks: Vec<GemmTask> = Vec::new();
    let mut b: usize = 0;
    proof {
        assert(0 * per == 0) by (nonlinear_arith);
    }
    while b < n_buckets
        invariant
            b <= n_buckets,
            per == tasks_per_bucket(out_f as int),
            are_gemm_tasks(tasks@, b as int, out_f as int),
        decreases n_buckets - b,
    {
        let ghost start = tasks@;
        let ghost mut c: int = 0;
        let mut o: usize = 0;
        while o < out_f
            invariant
                b < n_buckets,
                per == tasks_per_bucket(out_f as int),
                are_gemm_tasks(start, b as int, out_f as int),
                0 <= c <= per,
                o == if 64 * c < out_f {
                    64 * c
                } else {
                    out_f as int
                },
                o < out_f ==> c < per,
                o == out_f ==> c == per,
                tasks@.len() == start.len() + c,
                forall|k: int| 0 <= k < start.len() ==> #[trigger] tasks@[k] == start[k],
                forall|k: int|
                    start.len() <= k < start.len() + c ==> is_chunk(
                        #[trigger] tasks@[k],
                        b as int,
                        k - start.len(),
                        out_f as int,
                    ),
            decreases out_f - o,
        {
            let o1: usize = if out_f - o < 64 {
                out_f
            } else {
                o + 64
            };
            let ghost before = tasks@;
            tasks.push(GemmTask { bucket: b, o0: o, o1 });
            proof {
                assert forall|k: int| start.len() <= k < start.len() + c + 1 implies is_chunk(
                    #[trigger] tasks@[k],
                    b as int,
                    k - start.len(),
                    out_f as int,
                ) by {
                    if k < before.len() {
                        assert(tasks@[k] == before[k]);
                    }
                }
                c = c + 1;
            }
            o = o1;
        }
        proof {
            assert((b + 1) * per == b * per + per) by (nonlinear_arith);
            assert forall|d: int, e: int| 0 <= d < b + 1 && 0 <= e < per implies is_chunk(
                #[trigger] tasks@[d * per + e],
                d,
                e,
                out_f as int,
            ) by {
                if d < b {
                    assert(0 <= d * per && d * per + per <= b * per) by (nonlinear_arith)
                        requires
                            0 <= d,
                            d + 1 <= b,
                            0 <= per,
                    ;
                    assert(tasks@[d * per + e] == start[d * per + e]);
                }
            }
        }
        b = b + 1;
    }
    tasks
}

/// Task `t` is a chunk of a bucket.
proof fn lemma_task_at(tasks: Seq<GemmTask>, n_buckets: int, out_f: int, t: int)
    requires
        are_gemm_tasks(tasks, n_buckets, out_f),
        0 <= n_buckets,
        0 <= out_f,
        0 <= t < tasks.len(),
    ensures
        ({
            let per = tasks_per_bucket(out_f);
            &&& 0 < per
            &&& 0 <= t / per < n_buckets
            &&& 0 <= t % per < per
            &&& t == (t / per) * per + t % per
            &&& is_chunk(tasks[t], t / per, t % per, out_f)
        }),
{
    let per = tasks_per_bucket(out_f);
    if per == 0 {
        assert(n_buckets * per == 0) by (nonlinear_arith)
            requires
                per == 0,
        ;
    }
    lemma_fundamental_div_mod(t, per);
    lemma_mod_bound(t, per);
    let b = t / per;
    assert(per * b == b * per) by (nonlinear_arith);
    assert(0 <= b < n_buckets) by (nonlinear_arith)
        requires
            t == b * per + t % per,
            0 <= t % per < per,
            0 <= t < n_buckets * per,
    ;
    assert(is_chunk(tasks[b * per + t % per], b, t % per, out_f));
}

/// Every output row of every bucket is in exactly one task, and every task starts at a row where an
/// eight-row tile starts.
pub proof fn law_tasks_cover_once(tasks: Seq<GemmTask>, n_buckets: int, out_f: int, b: int, o: int)
    requires
        are_gemm_tasks(tasks, n_buckets, out_f),
        0 <= b < n_buckets,
        0 <= o < out_f,
    ensures
        exists|t: int|
            {
                &&& 0 <= t < tasks.len()
                &&& (#[trigger] tasks[t]).bucket == b
                &&& tasks[t].o0 <= o < tasks[t].o1
                &&& tasks[t].o1 <= out_f
                &&& tasks[t].o0 % 8 == 0
                &&& forall|s: int|
                    0 <= s < tasks.len() && (#[trigger] tasks[s]).bucket == b && tasks[s].o0 <= o < tasks[s].o1 ==> s
                        == t
            },
{
    let per = tasks_per_bucket(out_f);
    let t = b * per + o / 64;
    assert(0 <= t < n_buckets * per) by (nonlinear_arith)
        requires
            0 <= b,
            b + 1 <= n_buckets,
            t == b * per + o / 64,
            0 <= o / 64 < per,
    ;
    assert(is_chunk(tasks[b * per + o / 64], b, o / 64, out_f));
    assert forall|s: int|
        0 <= s < tasks.len() && (#[trigger] tasks[s]).bucket == b && tasks[s].o0 <= o < tasks[s].o1 implies s == t by {
        lemma_task_at(tasks, n_buckets, out_f, s);
    }
    assert(tasks[t].bucket == b);
}

/// The outputs of a task: from its first row's first pair on, and up to its last row's last pair.
pub open spec fn slice_start(out_f: int, bs: Seq<Bucket>, t: GemmTask) -> int {
    place_of(out_f, bs[t.bucket as int], t.o0 as int, 0)
}

/// The place behind the outputs of a task.
pub open spec fn slice_end(out_f: int, bs: Seq<Bucket>, t: GemmTask) -> int {
    place_of(out_f, bs[t.bucket as int], t.o1 as int, 0)
}

/// Two tasks write to places that do not overlap, and all of them lie in the buffer of the stage.
pub proof fn law_task_slices_disjoint(pairs: &Pairs, tasks: Seq<GemmTask>, out_f: int, s: int, t: int)
    requires
        pairs.buckets_ok(),
        0 <= out_f,
        are_gemm_tasks(tasks, pairs.buckets@.len() as int, out_f),
        0 <= s < t < tasks.len(),
    ensures
        0 <= slice_start(out_f, pairs.buckets@, tasks[s]),
        slice_end(out_f, pairs.buckets@, tasks[s]) <= slice_start(out_f, pairs.buckets@, tasks[t]),
        slice_end(out_f, pairs.buckets@, tasks[t]) <= out_f * pairs.row@.len(),
{
    let bs = pairs.buckets@;
    let per = tasks_per_bucket(out_f);
    lemma_task_at(tasks, bs.len() as int, out_f, s);
    lemma_task_at(tasks, bs.len() as int, out_f, t);
    let (x, y) = (tasks[s], tasks[t]);
    let (bx, by) = (bs[x.bucket as int], bs[y.bucket as int]);
    assert(s / per <= t / per) by (nonlinear_arith)
        requires
            0 < per,
            s < t,
            s == (s / per) * per + s % per,
            t == (t / per) * per + t % per,
            0 <= s % per < per,
            0 <= t % per < per,
    ;
    assert(0 <= out_f * bx.p0 && 0 <= x.o0 * bx.count) by (nonlinear_arith)
        requires
            0 <= out_f,
    ;
    lemma_bucket_ends(pairs, x.bucket as int);
    lemma_bucket_ends(pairs, y.bucket as int);
    lemma_rows_fit(out_f, by.p0 as int, by.count as int, y.o1 as int, pairs.row@.len() as int);
    if x.bucket == y.bucket {
        assert(x.o1 <= y.o0);
        assert(x.o1 * bx.count <= y.o0 * bx.count) by (nonlinear_arith)
            requires
                x.o1 <= y.o0,
        ;
    } else {
        lemma_rows_fit(out_f, bx.p0 as int, bx.count as int, x.o1 as int, by.p0 as int);
        assert(0 <= y.o0 * by.count) by (nonlinear_arith);
    }
}

/// The first `o` rows of a bucket end before anything behind the bucket.
proof fn lemma_rows_fit(out_f: int, p0: int, count: int, o: int, next: int)
    requires
        0 <= o <= out_f,
        0 <= count,
        p0 + count <= next,
    ensures
        out_f * p0 + o * count <= out_f * next,
{
    assert(o * count <= out_f * count) by (nonlinear_arith)
        requires
            o <= out_f,
            0 <= count,
    ;
    assert(out_f * p0 + out_f * count == out_f * (p0 + count)) by (nonlinear_arith);
    assert(out_f * (p0 + count) <= out_f * next) by (nonlinear_arith)
        requires
            0 <= out_f,
            p0 + count <= next,
    ;
}

/// The bank of expert `e`: the bytes are split evenly over the experts.
pub open spec fn bank_of(wbytes: Seq<u8>, n_expert: int, e: int) -> Seq<u8> {
    block_of(wbytes, wbytes.len() as int / n_expert, e)
}

/// The number of bytes of one row of a bank.
pub open spec fn bank_row_bytes(wbytes: Seq<u8>, n_expert: int, out_f: int) -> int {
    (wbytes.len() as int / n_expert) / out_f
}

/// The bank of expert `e`.
pub fn expert_bank(wbytes: &[u8], n_expert: usize, e: usize) -> (bank: &[u8])
    requires
        e < n_expert,
    ensures
        bank@ == bank_of(wbytes@, n_expert as int, e as int),
        bank@.len() == wbytes@.len() as int / n_expert as int,
{
    let st: usize = wbytes.len() / n_expert;
    proof {
        lemma_fundamental_div_mod(wbytes@.len() as int, n_expert as int);
        lemma_mod_bound(wbytes@.len() as int, n_expert as int);
        assert(e * st + st <= n_expert * st) by (nonlinear_arith)
            requires
                e + 1 <= n_expert,
        ;
    }
    block(wbytes, st, e)
}

/// The rows of the pairs `p0` up to `p0 + count`.
fn bucket_acts<'a>(acts: &ExpertActs<'a>, p0: usize, count: usize) -> (r: ExpertActs<'a>)
    requires
        p0 + count <= acts.codes().len(),
    ensures
        r.codes() == acts.codes().subrange(p0 as int, p0 + count),
        forall|dt: DType, in_f: int| acts.fit(dt, in_f) ==> #[trigger] r.fit(dt, in_f),
{
    match acts {
        ExpertActs::Super(q8s) => {
            let len: usize = q8s.len();
            let part: &[Q8] = vstd::slice::slice_subrange(*q8s, p0, p0 + count);
            let r: ExpertActs = ExpertActs::Super(part);
            assert(r.codes() =~= acts.codes().subrange(p0 as int, p0 + count));
            r
        },
        ExpertActs::Blk32(q8s) => {
            let len: usize = q8s.len();
            let part: &[Q8x32] = vstd::slice::slice_subrange(*q8s, p0, p0 + count);
            let r: ExpertActs = ExpertActs::Blk32(part);
            assert(r.codes() =~= acts.codes().subrange(p0 as int, p0 + count));
            r
        },
    }
}

/// Appends the columns one behind the other.
fn append_columns(flat: &mut Vec<Vec<Term>>, cols: Vec<Vec<Vec<Term>>>, count: usize)
    requires
        forall|k: int| 0 <= k < cols@.len() ==> (#[trigger] cols@[k])@.len() == count,
    ensures
        final(flat)@.len() == old(flat)@.len() + cols@.len() * count,
        forall|q: int| 0 <= q < old(flat)@.len() ==> #[trigger] final(flat)@[q] == old(flat)@[q],
        forall|k: int, r: int|
            0 <= k < cols@.len() && 0 <= r < count ==> final(flat)@[old(flat)@.len() + k * count + r] == (
            #[trigger] cols@[k]@[r]),
{
    let ghost all = cols@;
    let ghost start = flat@;
    let mut rest: Vec<Vec<Vec<Term>>> = cols;
    let n: usize = rest.len();
    let mut k: usize = 0;
    proof {
        assert(0 * count == 0) by (nonlinear_arith);
    }
    while k < n
        invariant
            k <= n,
            n == all.len(),
            rest@ == all.skip(k as int),
            forall|j: int| 0 <= j < all.len() ==> (#[trigger] all[j])@.len() == count,
            flat@.len() == start.len() + k * count,
            forall|q: int| 0 <= q < start.len() ==> #[trigger] flat@[q] == start[q],
            forall|j: int, r: int|
                0 <= j < k && 0 <= r < count ==> flat@[start.len() + j * count + r] == (#[trigger] all[j]@[r]),
        decreases n - k,
    {
        let ghost before = flat@;
        let mut col: Vec<Vec<Term>> = rest.remove(0);
        flat.append(&mut col);
        proof {
            assert(rest@ =~= all.skip(k + 1));
            assert((k + 1) * count == k * count + count) by (nonlinear_arith);
            assert forall|j: int, r: int| 0 <= j < k + 1 && 0 <= r < count implies flat@[start.len() + j * count + r]
                == (#[trigger] all[j]@[r]) by {
                if j < k {
                    assert(0 <= j * count && j * count + count <= k * count) by (nonlinear_arith)
                        requires
                            0 <= j,
                            j + 1 <= k,
                    ;
                    assert(flat@[start.len() + j * count + r] == before[start.len() + j * count + r]);
                }
            }
        }
        k = k + 1;
    }
}

/// The banks of all experts, their type and their shape: `n_expert` banks of `out_f` rows of `in_f`
/// weights.
#[derive(Clone, Copy)]
pub struct Experts<'a> {
    pub wbytes: &'a [u8],
    pub dt: DType,
    pub n_expert: usize,
    pub in_f: usize,
    pub out_f: usize,
}

impl<'a> Experts<'a> {
    /// There is an expert and an output, and a row of a bank holds its weights.
    pub open spec fn wf(&self) -> bool {
        &&& 0 < self.n_expert
        &&& 0 < self.out_f
        &&& self.in_f as int % self.dt.elems() == 0
        &&& (self.in_f as int / self.dt.elems()) * self.dt.bytes() <= bank_row_bytes(
            self.wbytes@,
            self.n_expert as int,
            self.out_f as int,
        )
    }

    /// Row `o` of the bank of expert `e`.
    pub open spec fn row_of(&self, e: int, o: int) -> Seq<u8> {
        block_of(
            bank_of(self.wbytes@, self.n_expert as int, e),
            bank_row_bytes(self.wbytes@, self.n_expert as int, self.out_f as int),
            o,
        )
    }
}

/// The place of output `o` of local pair `i` of bucket `b` holds the terms of row `o` of the
/// bucket's expert against the activations of that pair.
pub open spec fn cell_ok(
    ex: &Experts,
    tb: &Tables,
    bs: Seq<Bucket>,
    codes: Seq<Seq<i8>>,
    flat: Seq<Vec<Term>>,
    b: int,
    o: int,
    i: int,
) -> bool {
    is_row_dot(
        ex.dt,
        tb,
        flat[place_of(ex.out_f as int, bs[b], o, i)]@,
        ex.row_of(bs[b].expert as int, o),
        codes[bs[b].p0 + i],
        ex.in_f as int,
    )
}

/// `flat` holds every output of every pair. `codes[p]` are the activation codes of pair `p`.
pub open spec fn is_moe_gemm(
    ex: &Experts,
    tb: &Tables,
    pairs: &Pairs,
    codes: Seq<Seq<i8>>,
    flat: Seq<Vec<Term>>,
) -> bool {
    &&& flat.len() == ex.out_f * pairs.row@.len()
    &&& forall|b: int, o: int, i: int|
        0 <= b < pairs.buckets@.len() && 0 <= o < ex.out_f && 0 <= i < pairs.buckets@[b].count ==> #[trigger] cell_ok(
            ex,
            tb,
            pairs.buckets@,
            codes,
            flat,
            b,
            o,
            i,
        )
}

/// The cells of the first `n` tasks are filled.
spec fn tasks_done(
    ex: &Experts,
    tb: &Tables,
    bs: Seq<Bucket>,
    codes: Seq<Seq<i8>>,
    flat: Seq<Vec<Term>>,
    tasks: Seq<GemmTask>,
    n: int,
) -> bool {
    forall|t: int, o: int, i: int|
        0 <= t < n && (#[trigger] tasks[t]).o0 <= o < tasks[t].o1 && 0 <= i < bs[tasks[t].bucket as int].count
            ==> #[trigger] cell_ok(ex, tb, bs, codes, flat, tasks[t].bucket as int, o, i)
}

/// A task starts where the one before it ends.
proof fn lemma_task_follows(pairs: &Pairs, tasks: Seq<GemmTask>, out_f: int, t: int)
    requires
        pairs.buckets_ok(),
        0 <= out_f,
        are_gemm_tasks(tasks, pairs.buckets@.len() as int, out_f),
        0 <= t < tasks.len(),
    ensures
        t == 0 ==> slice_start(out_f, pairs.buckets@, tasks[t]) == 0,
        t + 1 < tasks.len() ==> slice_start(out_f, pairs.buckets@, tasks[t + 1]) == slice_end(
            out_f,
            pairs.buckets@,
            tasks[t],
        ),
        t + 1 == tasks.len() ==> slice_end(out_f, pairs.buckets@, tasks[t]) == out_f * pairs.row@.len(),
        tasks[t].bucket < pairs.buckets@.len(),
        tasks[t].o0 <= tasks[t].o1 <= out_f,
        tasks[t].o0 % 8 == 0,
{
    let bs = pairs.buckets@;
    let per = tasks_per_bucket(out_f);
    let n = bs.len() as int;
    lemma_task_at(tasks, n, out_f, t);
    let b = t / per;
    let c = t % per;
    if t == 0 {
        assert(b == 0 && c == 0) by (nonlinear_arith)
            requires
                0 == b * per + c,
                0 <= b,
                0 <= c < per,
        ;
        assert(out_f * 0 == 0 && 0 * bs[0].count == 0) by (nonlinear_arith);
    }
    assert(out_f * (bs[b].p0 + bs[b].count) == out_f * bs[b].p0 + out_f * bs[b].count) by (nonlinear_arith);
    if c + 1 == per {
        assert(tasks[t].o1 == out_f);
        assert(t + 1 == (b + 1) * per) by (nonlinear_arith)
            requires
                t == b * per + c,
                c + 1 == per,
        ;
        if b + 1 < n {
            assert((b + 1) * per + per <= n * per) by (nonlinear_arith)
                requires
                    b + 2 <= n,
                    0 < per,
            ;
            assert(is_chunk(tasks[(b + 1) * per + 0], b + 1, 0, out_f));
            assert(bs[b + 1].p0 == bs[b].p0 + bs[b].count);
            assert(0 * bs[b + 1].count == 0) by (nonlinear_arith);
        } else {
            lemma_bucket_ends(pairs, b);
        }
    } else {
        assert(t + 1 < n * per) by (nonlinear_arith)
            requires
                t == b * per + c,
                c + 1 < per,
                b + 1 <= n,
                0 < per,
        ;
        assert(is_chunk(tasks[b * per + (c + 1)], b, c + 1, out_f));
    }
}

/// All expert banks against the activation rows of their pairs, task by task.
pub fn moe_gemm(ex: &Experts, tb: &Tables, pairs: &Pairs, acts: &ExpertActs) -> (flat: Vec<Vec<Term>>)
    requires
        ex.wf(),
        tb.wf(),
        pairs.buckets_ok(),
        forall|b: int| 0 <= b < pairs.buckets@.len() ==> (#[trigger] pairs.buckets@[b]).expert < ex.n_expert,
        acts.fit(ex.dt, ex.in_f as int),
        acts.codes().len() == pairs.row@.len(),
    ensures
        is_moe_gemm(ex, tb, pairs, acts.codes(), flat@),
{
    let ghost bs = pairs.buckets@;
    let ghost out_f = ex.out_f as int;
    let ghost bpr = bank_row_bytes(ex.wbytes@, ex.n_expert as int, out_f);
    let tasks: Vec<GemmTask> = gemm_tasks(pairs.buckets.len(), ex.out_f);
    let mut flat: Vec<Vec<Term>> = Vec::new();
    let n: usize = tasks.len();
    proof {
        if n == 0 {
            assert(0 < tasks_per_bucket(out_f));
            assert(bs.len() == 0) by (nonlinear_arith)
                requires
                    0 == bs.len() * tasks_per_bucket(out_f),
                    0 < tasks_per_bucket(out_f),
            ;
            assert(out_f * 0 == 0) by (nonlinear_arith);
        } else {
            lemma_task_follows(pairs, tasks@, out_f, 0);
        }
    }
    let mut t: usize = 0;
    while t < n
        invariant
            t <= n,
            n == tasks@.len(),
            bs == pairs.buckets@,
            out_f == ex.out_f,
            bpr == bank_row_bytes(ex.wbytes@, ex.n_expert as int, out_f),
            ex.wf(),
            tb.wf(),
            pairs.buckets_ok(),
            forall|b: int| 0 <= b < bs.len() ==> (#[trigger] bs[b]).expert < ex.n_expert,
            acts.fit(ex.dt, ex.in_f as int),
            acts.codes().len() == pairs.row@.len(),
            are_gemm_tasks(tasks@, bs.len() as int, out_f),
            t < n ==> flat@.len() == slice_start(out_f, bs, tasks@[t as int]),
            t == n ==> flat@.len() == out_f * pairs.row@.len(),
            tasks_done(ex, tb, bs, acts.codes(), flat@, tasks@, t as int),
        decreases n - t,
    {
        proof {
            lemma_task_follows(pairs, tasks@, out_f, t as int);
        }
        let task: GemmTask = tasks[t];
        let bk: Bucket = pairs.buckets[task.bucket];
        proof {
            lemma_bucket_ends(pairs, task.bucket as int);
        }
        let bank: &[u8] = expert_bank(ex.wbytes, ex.n_expert, bk.expert);
        let part: ExpertActs = bucket_acts(acts, bk.p0, bk.count);
        proof {
            lemma_fundamental_div_mod(bank@.len() as int, out_f);
            lemma_mod_bound(bank@.len() as int, out_f);
            assert(part.fit(ex.dt, ex.in_f as int));
        }
        let cols: Vec<Vec<Vec<Term>>> = expert_gemm_range(bank, ex.dt, tb, ex.in_f, ex.out_f, &part, task.o0, task.o1);
        let ghost before = flat@;
        proof {
            assert forall|k: int| 0 <= k < cols@.len() implies (#[trigger] cols@[k])@.len() == bk.count by {
                assert(is_row_batch(
                    ex.dt,
                    tb,
                    cols@[k]@,
                    block_of(bank@, bpr, task.o0 + k),
                    part.codes(),
                    ex.in_f as int,
                ));
            }
        }
        let ghost got = cols@;
        append_columns(&mut flat, cols, bk.count);
        proof {
            lemma_task_filled(ex, tb, pairs, acts.codes(), before, flat@, tasks@, t as int, got);
        }
        t = t + 1;
    }
    proof {
        assert forall|b: int, o: int, i: int|
            0 <= b < bs.len() && 0 <= o < ex.out_f && 0 <= i < bs[b].count implies #[trigger] cell_ok(
            ex,
            tb,
            bs,
            acts.codes(),
            flat@,
            b,
            o,
            i,
        ) by {
            law_tasks_cover_once(tasks@, bs.len() as int, out_f, b, o);
            let k = choose|k: int|
                0 <= k < tasks@.len() && (#[trigger] tasks@[k]).bucket == b && tasks@[k].o0 <= o < tasks@[k].o1;
            assert(cell_ok(ex, tb, bs, acts.codes(), flat@, tasks@[k].bucket as int, o, i));
        }
    }
    flat
}

/// The cells of one more task.
proof fn lemma_task_filled(
    ex: &Experts,
    tb: &Tables,
    pairs: &Pairs,
    codes: Seq<Seq<i8>>,
    before: Seq<Vec<Term>>,
    flat: Seq<Vec<Term>>,
    tasks: Seq<GemmTask>,
    t: int,
    cols: Seq<Vec<Vec<Term>>>,
)
    requires
        ex.wf(),
        pairs.buckets_ok(),
        codes.len() == pairs.row@.len(),
        are_gemm_tasks(tasks, pairs.buckets@.len() as int, ex.out_f as int),
        0 <= t < tasks.len(),
        before.len() == slice_start(ex.out_f as int, pairs.buckets@, tasks[t]),
        tasks_done(ex, tb, pairs.buckets@, codes, before, tasks, t),
        cols.len() == tasks[t].o1 - tasks[t].o0,
        flat.len() == before.len() + cols.len() * pairs.buckets@[tasks[t].bucket as int].count,
        forall|q: int| 0 <= q < before.len() ==> #[trigger] flat[q] == before[q],
        forall|k: int, r: int|
            0 <= k < cols.len() && 0 <= r < pairs.buckets@[tasks[t].bucket as int].count ==> flat[before.len() + k
                * pairs.buckets@[tasks[t].bucket as int].count + r] == (#[trigger] cols[k]@[r]),
        is_gemm(
            ex.dt,
            tb,
            cols,
            bank_of(ex.wbytes@, ex.n_expert as int, pairs.buckets@[tasks[t].bucket as int].expert as int),
            bank_row_bytes(ex.wbytes@, ex.n_expert as int, ex.out_f as int),
            codes.subrange(
                pairs.buckets@[tasks[t].bucket as int].p0 as int,
                pairs.buckets@[tasks[t].bucket as int].p0 + pairs.buckets@[tasks[t].bucket as int].count,
            ),
            ex.in_f as int,
            tasks[t].o0 as int,
            tasks[t].o1 as int,
        ),
    ensures
        tasks_done(ex, tb, pairs.buckets@, codes, flat, tasks, t + 1),
        t + 1 < tasks.len() ==> flat.len() == slice_start(ex.out_f as int, pairs.buckets@, tasks[t + 1]),
        t + 1 == tasks.len() ==> flat.len() == ex.out_f * pairs.row@.len(),
{
    let bs = pairs.buckets@;
    let out_f = ex.out_f as int;
    let task = tasks[t];
    let bk = bs[task.bucket as int];
    lemma_task_follows(pairs, tasks, out_f, t);
    lemma_bucket_ends(pairs, task.bucket as int);
    assert((task.o1 - task.o0) * bk.count == task.o1 * bk.count - task.o0 * bk.count) by (nonlinear_arith);
    assert forall|s: int, o: int, i: int|
        0 <= s < t + 1 && (#[trigger] tasks[s]).o0 <= o < tasks[s].o1 && 0 <= i < bs[tasks[s].bucket as int].count
        implies #[trigger] cell_ok(ex, tb, bs, codes, flat, tasks[s].bucket as int, o, i) by {
        let b = tasks[s].bucket as int;
        lemma_task_follows(pairs, tasks, out_f, s);
        if s < t {
            law_task_slices_disjoint(pairs, tasks, out_f, s, t);
            assert(cell_ok(ex, tb, bs, codes, before, b, o, i));
            assert(0 <= out_f * bs[b].p0 && 0 <= o * bs[b].count) by (nonlinear_arith)
                requires
                    0 <= out_f,
                    0 <= o,
            ;
            assert(o * bs[b].count + bs[b].count <= tasks[s].o1 * bs[b].count) by (nonlinear_arith)
                requires
                    o + 1 <= tasks[s].o1,
            ;
            let q = place_of(out_f, bs[b], o, i);
            assert(flat[q] == before[q]);
        } else {
            let k = o - task.o0;
            assert(k * bk.count == o * bk.count - task.o0 * bk.count) by (nonlinear_arith)
                requires
                    k == o - task.o0,
            ;
            assert(flat[before.len() + k * bk.count + i] == cols[k]@[i]);
            let sub = codes.subrange(bk.p0 as int, bk.p0 + bk.count);
            assert(is_row_batch(
                ex.dt,
                tb,
                cols[k]@,
                ex.row_of(bk.expert as int, task.o0 + k),
                sub,
                ex.in_f as int,
            ));
            assert(is_row_dot(
                ex.dt,
                tb,
                cols[k]@[i]@,
                ex.row_of(bk.expert as int, task.o0 + k),
                sub[i],
                ex.in_f as int,
            ));
            assert(sub[i] == codes[bk.p0 + i]);
        }
    }
}

/// The activation rows of the pairs: each pair gets the row that it was routed from.
pub fn gather_super(rows: &[Q8], pairs: &Pairs) -> (out: Vec<Q8>)
    requires
        forall|p: int| 0 <= p < pairs.row@.len() ==> #[trigger] pairs.row@[p] < rows@.len(),
    ensures
        out@.len() == pairs.row@.len(),
        forall|p: int|
            0 <= p < out@.len() ==> (#[trigger] out@[p]).qs@ == rows@[pairs.row@[p] as int].qs@ && out@[p].d@
                == rows@[pairs.row@[p] as int].d@ && (rows@[pairs.row@[p] as int].wf() ==> out@[p].wf()),
{
    let n: usize = pairs.row.len();
    let mut out: Vec<Q8> = Vec::new();
    let mut p: usize = 0;
    while p < n
        invariant
            p <= n,
            n == pairs.row@.len(),
            forall|q: int| 0 <= q < n ==> #[trigger] pairs.row@[q] < rows@.len(),
            out@.len() == p,
            forall|q: int|
                0 <= q < p ==> (#[trigger] out@[q]).qs@ == rows@[pairs.row@[q] as int].qs@ && out@[q].d@
                    == rows@[pairs.row@[q] as int].d@ && (rows@[pairs.row@[q] as int].wf() ==> out@[q].wf()),
        decreases n - p,
    {
        out.push(rows[pairs.row[p]].copied());
        p = p + 1;
    }
    out
}

/// The activation rows of the pairs: each pair gets the row that it was routed from.
pub fn gather_blk32(rows: &[Q8x32], pairs: &Pairs) -> (out: Vec<Q8x32>)
    requires
        forall|p: int| 0 <= p < pairs.row@.len() ==> #[trigger] pairs.row@[p] < rows@.len(),
    ensures
        out@.len() == pairs.row@.len(),
        forall|p: int|
            0 <= p < out@.len() ==> (#[trigger] out@[p]).qs@ == rows@[pairs.row@[p] as int].qs@ && out@[p].d@
                == rows@[pairs.row@[p] as int].d@ && (rows@[pairs.row@[p] as int].wf() ==> out@[p].wf()),
{
    let n: usize = pairs.row.len();
    let mut out: Vec<Q8x32> = Vec::new();
    let mut p: usize = 0;
    while p < n
        invariant
            p <= n,
            n == pairs.row@.len(),
            forall|q: int| 0 <= q < n ==> #[trigger] pairs.row@[q] < rows@.len(),
            out@.len() == p,
            forall|q: int|
                0 <= q < p ==> (#[trigger] out@[q]).qs@ == rows@[pairs.row@[q] as int].qs@ && out@[q].d@
                    == rows@[pairs.row@[q] as int].d@ && (rows@[pairs.row@[q] as int].wf() ==> out@[q].wf()),
        decreases n - p,
    {
        out.push(rows[pairs.row[p]].copied());
        p = p + 1;
    }
    out
}

/// Grouping by expert reorders work and changes none of it: where each pair has the activations of
/// its row, the pair of slot `k` of row `r` holds the outputs of the slot's own expert against row
/// `r`.
pub proof fn law_grouping_keeps_each_slot(
    ex: &Experts,
    tb: &Tables,
    routes: Seq<Vec<usize>>,
    pairs: &Pairs,
    row_codes: Seq<Seq<i8>>,
    codes: Seq<Seq<i8>>,
    flat: Seq<Vec<Term>>,
    r: int,
    k: int,
    o: int,
)
    requires
        pairs.wf(routes),
        is_slot(routes, r, k),
        0 <= o < ex.out_f,
        codes.len() == pairs.row@.len(),
        forall|p: int| 0 <= p < codes.len() ==> #[trigger] codes[p] == row_codes[pairs.row@[p] as int],
        is_moe_gemm(ex, tb, pairs, codes, flat),
    ensures
        ({
            let p = pairs.slot_pair@[r]@[k] as int;
            let bk = pairs.buckets@[pairs.bucket@[p] as int];
            is_row_dot(
                ex.dt,
                tb,
                flat[place_of(ex.out_f as int, bk, o, pairs.local@[p] as int)]@,
                ex.row_of(expert_of(routes, r, k), o),
                row_codes[r],
                ex.in_f as int,
            )
        }),
{
    let p = pairs.slot_pair@[r]@[k] as int;
    assert(pairs.pair_ok(routes, p));
    let b = pairs.bucket@[p] as int;
    assert(cell_ok(ex, tb, pairs.buckets@, codes, flat, b, o, pairs.local@[p] as int));
    assert(codes[p] == row_codes[pairs.row@[p] as int]);
}

/// Element `o` is output `o` of pair `p`.
pub open spec fn is_pair_row<T>(flat: Seq<T>, pairs: &Pairs, out_f: int, p: int, out: Seq<T>) -> bool {
    &&& out.len() == out_f
    &&& forall|o: int|
        0 <= o < out_f ==> #[trigger] out[o] == flat[place_of(
            out_f,
            pairs.buckets@[pairs.bucket@[p] as int],
            o,
            pairs.local@[p] as int,
        )]
}

/// The outputs of pair `p`.
pub fn pair_row<T: Copy>(flat: &[T], pairs: &Pairs, out_f: usize, p: usize) -> (out: Vec<T>)
    requires
        pairs.buckets_ok(),
        pairs.bucket@.len() == pairs.row@.len(),
        pairs.local@.len() == pairs.row@.len(),
        p < pairs.row@.len(),
        pairs.bucket@[p as int] < pairs.buckets@.len(),
        pairs.local@[p as int] < pairs.buckets@[pairs.bucket@[p as int] as int].count,
        flat@.len() == out_f * pairs.row@.len(),
    ensures
        is_pair_row(flat@, pairs, out_f as int, p as int, out@),
{
    let b: usize = pairs.bucket[p];
    let i: usize = pairs.local[p];
    let bk: Bucket = pairs.buckets[b];
    let len: usize = flat.len();
    let mut out: Vec<T> = Vec::new();
    let mut o: usize = 0;
    proof {
        lemma_bucket_ends(pairs, b as int);
    }
    while o < out_f
        invariant
            o <= out_f,
            len == flat@.len(),
            len == out_f * pairs.row@.len(),
            bk == pairs.buckets@[pairs.bucket@[p as int] as int],
            i == pairs.local@[p as int],
            i < bk.count,
            bk.p0 + bk.count <= pairs.row@.len(),
            out@.len() == o,
            forall|q: int| 0 <= q < o ==> #[trigger] out@[q] == flat@[place_of(out_f as int, bk, q, i as int)],
        decreases out_f - o,
    {
        proof {
            assert(o * bk.count + bk.count == (o + 1) * bk.count) by (nonlinear_arith);
            lemma_rows_fit(out_f as int, bk.p0 as int, bk.count as int, o + 1, pairs.row@.len() as int);
            assert(0 <= out_f * bk.p0 && 0 <= o * bk.count) by (nonlinear_arith);
        }
        out.push(flat[out_f * bk.p0 + o * bk.count + i]);
        o = o + 1;
    }
    out
}

/// The pair of every place of a stage.
pub fn place_pairs(pairs: &Pairs, out_f: usize) -> (out: Vec<usize>)
    requires
        pairs.buckets_ok(),
    ensures
        out@.len() == out_f * pairs.row@.len(),
        forall|b: int, o: int, i: int|
            0 <= b < pairs.buckets@.len() && 0 <= o < out_f && 0 <= i < pairs.buckets@[b].count ==> out@[
            #[trigger] place_of(out_f as int, pairs.buckets@[b], o, i)] == pairs.buckets@[b].p0 + i,
{
    let n: usize = pairs.buckets.len();
    let total: usize = pairs.row.len();
    let ghost bs = pairs.buckets@;
    let mut out: Vec<usize> = Vec::new();
    let mut b: usize = 0;
    proof {
        assert(out_f * 0 == 0) by (nonlinear_arith);
    }
    while b < n
        invariant
            b <= n,
            n == bs.len(),
            total == pairs.row@.len(),
            bs == pairs.buckets@,
            pairs.buckets_ok(),
            b < n ==> out@.len() == out_f * bs[b as int].p0,
            b == n ==> out@.len() == out_f * pairs.row@.len(),
            forall|c: int, o: int, i: int|
                0 <= c < b && 0 <= o < out_f && 0 <= i < bs[c].count ==> out@[#[trigger] place_of(
                    out_f as int,
                    bs[c],
                    o,
                    i,
                )] == bs[c].p0 + i,
        decreases n - b,
    {
        let bk: Bucket = pairs.buckets[b];
        proof {
            lemma_bucket_ends(pairs, b as int);
            assert(0 * bk.count == 0) by (nonlinear_arith);
        }
        let ghost before = out@;
        let mut o: usize = 0;
        while o < out_f
            invariant
                o <= out_f,
                b < n,
                n == bs.len(),
                bk == bs[b as int],
                bk.p0 + bk.count <= usize::MAX,
                before.len() == out_f * bk.p0,
                out@.len() == before.len() + o * bk.count,
                forall|q: int| 0 <= q < before.len() ==> #[trigger] out@[q] == before[q],
                forall|p: int, i: int|
                    0 <= p < o && 0 <= i < bk.count ==> out@[#[trigger] place_of(out_f as int, bk, p, i)] == bk.p0 + i,
            decreases out_f - o,
        {
            let ghost start = out@;
            let mut i: usize = 0;
            while i < bk.count
                invariant
                    i <= bk.count,
                    bk.p0 + bk.count <= usize::MAX,
                    out@.len() == start.len() + i,
                    forall|q: int| 0 <= q < start.len() ==> #[trigger] out@[q] == start[q],
                    forall|q: int| start.len() <= q < out@.len() ==> #[trigger] out@[q] == bk.p0 + (q - start.len()),
                decreases bk.count - i,
            {
                out.push(bk.p0 + i);
                i = i + 1;
            }
            proof {
                assert((o + 1) * bk.count == o * bk.count + bk.count) by (nonlinear_arith);
                assert forall|p: int, i: int| 0 <= p < o + 1 && 0 <= i < bk.count implies out@[#[trigger] place_of(
                    out_f as int,
                    bk,
                    p,
                    i,
                )] == bk.p0 + i by {
                    let q = place_of(out_f as int, bk, p, i);
                    assert(0 <= p * bk.count) by (nonlinear_arith)
                        requires
                            0 <= p,
                    ;
                    if p < o {
                        assert(p * bk.count + bk.count <= o * bk.count) by (nonlinear_arith)
                            requires
                                p + 1 <= o,
                        ;
                        assert(start[q] == bk.p0 + i);
                        assert(out@[q] == start[q]);
                    } else {
                        assert(q == start.len() + i);
                        assert(out@[q] == bk.p0 + (q - start.len()));
                    }
                }
            }
            o = o + 1;
        }
        proof {
            assert(out_f * (bk.p0 + bk.count) == out_f * bk.p0 + out_f * bk.count) by (nonlinear_arith);
            if b + 1 < n {
                assert(bs[b + 1].p0 == bs[b as int].p0 + bs[b as int].count);
            }
            assert forall|c: int, o: int, i: int|
                0 <= c < b + 1 && 0 <= o < out_f && 0 <= i < bs[c].count implies out@[#[trigger] place_of(
                out_f as int,
                bs[c],
                o,
                i,
            )] == bs[c].p0 + i by {
                if c < b {
                    let q = place_of(out_f as int, bs[c], o, i);
                    lemma_bucket_ends(pairs, c);
                    lemma_rows_fit(out_f as int, bs[c].p0 as int, bs[c].count as int, o + 1, bk.p0 as int);
                    assert((o + 1) * bs[c].count == o * bs[c].count + bs[c].count) by (nonlinear_arith);
                    assert(0 <= out_f * bs[c].p0 && 0 <= o * bs[c].count) by (nonlinear_arith)
                        requires
                            0 <= o,
                    ;
                    assert(before[q] == bs[c].p0 + i);
                    assert(out@[q] == before[q]);
                }
            }
        }
        b = b + 1;
    }
    out
}

/// Where a tensor is a run of equally long banks, the bank of an expert is the one of its number:
/// byte `i` of it stands behind the banks of the experts before.
pub proof fn law_bank_is_of_its_expert(wbytes: &[u8], n_expert: usize, e: usize, bank: &[u8], st: int, i: int)
    requires
        call_ensures(expert_bank, (wbytes, n_expert, e), bank),
        e < n_expert,
        st * n_expert <= wbytes@.len() < (st + 1) * n_expert,
        0 <= i < st,
    ensures
        bank@.len() == st,
        e * st + i < wbytes@.len(),
        bank@[i] == wbytes@[e * st + i],
{
    lemma_share(wbytes@.len() as int, n_expert as int, st, e as int);
}

/// The share of each of `n` in `len`, and where that of number `e` lies.
proof fn lemma_share(len: int, n: int, st: int, e: int)
    requires
        0 < n,
        0 <= e < n,
        st * n <= len < (st + 1) * n,
        0 <= st,
    ensures
        len / n == st,
        0 <= e * st,
        e * st + st <= len,
{
    assert((st + 1) * n == st * n + n) by (nonlinear_arith);
    vstd::arithmetic::div_mod::lemma_fundamental_div_mod_converse(len, n, st, len - st * n);
    assert(0 <= e * st && e * st + st <= st * n) by (nonlinear_arith)
        requires
            0 <= e,
            e + 1 <= n,
            0 <= st,
    ;
}

/// The outputs of the buckets follow one another: a bucket takes as many places as it has pairs for
/// every output.
pub proof fn law_offsets_follow(pairs: &Pairs, out_f: usize, off: Vec<usize>, b: int)
    requires
        call_ensures(out_offsets, (pairs, out_f), off),
        pairs.buckets_ok(),
        0 <= b < pairs.buckets@.len(),
    ensures
        off@.len() == pairs.buckets@.len() + 1,
        off@[0] == 0,
        off@[b + 1] - off@[b] == out_f * pairs.buckets@[b].count,
{
    let bs = pairs.buckets@;
    assert(off@[0] == out_f * bs[0].p0);
    assert(out_f * 0 == 0) by (nonlinear_arith);
    assert(off@[b] == out_f * bs[b].p0);
    assert(out_f * (bs[b].p0 + bs[b].count) == out_f * bs[b].p0 + out_f * bs[b].count) by (nonlinear_arith);
    if b + 1 < bs.len() {
        assert(bs[b + 1].p0 == bs[b].p0 + bs[b].count);
        assert(off@[b + 1] == out_f * bs[b + 1].p0);
    }
}

/// The tasks walk the outputs of the first bucket from the first on, 64 at a time, then those of the
/// next, to the end of the last.
pub proof fn law_tasks_walk_outputs(n_buckets: usize, out_f: usize, tasks: Vec<GemmTask>, t: int)
    requires
        call_ensures(gemm_tasks, (n_buckets, out_f), tasks),
        0 <= t < tasks@.len(),
    ensures
        ({
            let x = tasks@[t];
            &&& x.o0 < x.o1 <= out_f
            &&& x.o1 - x.o0 == 64 || x.o1 - x.o0 < 64 && x.o1 == out_f
            &&& t == 0 ==> x.bucket == 0 && x.o0 == 0
            &&& t == tasks@.len() - 1 ==> x.bucket == n_buckets - 1 && x.o1 == out_f
            &&& t < tasks@.len() - 1 ==> {
                let y = tasks@[t + 1];
                if x.o1 < out_f {
                    y.bucket == x.bucket && y.o0 == x.o1
                } else {
                    y.bucket == x.bucket + 1 && y.o0 == 0
                }
            }
        }),
{
    let per = tasks_per_bucket(out_f as int);
    let n = n_buckets as int;
    lemma_task_at(tasks@, n, out_f as int, t);
    let (b, c) = (t / per, t % per);
    if t < tasks@.len() - 1 {
        lemma_task_at(tasks@, n, out_f as int, t + 1);
        if c + 1 < per {
            vstd::arithmetic::div_mod::lemma_fundamental_div_mod_converse(t + 1, per, b, c + 1);
        } else {
            assert((b + 1) * per == b * per + per) by (nonlinear_arith);
            vstd::arithmetic::div_mod::lemma_fundamental_div_mod_converse(t + 1, per, b + 1, 0);
        }
    } else {
        assert(b == n - 1 && c == per - 1) by (nonlinear_arith)
            requires
                t == n * per - 1,
                t == b * per + c,
                0 <= c < per,
                0 <= b < n,
        ;
    }
    if t == 0 {
        assert(b == 0 && c == 0) by (nonlinear_arith)
            requires
                0 == b * per + c,
                0 <= c < per,
                0 <= b,
        ;
    }
}

/// There are tasks where there is a bucket and an output.
pub proof fn law_tasks_exist(n_buckets: usize, out_f: usize, tasks: Vec<GemmTask>)
    requires
        call_ensures(gemm_tasks, (n_buckets, out_f), tasks),
    ensures
        tasks@.len() > 0 <==> n_buckets > 0 && out_f > 0,
{
    let per = tasks_per_bucket(out_f as int);
    assert(n_buckets * per > 0 <==> n_buckets > 0 && per > 0) by (nonlinear_arith)
        requires
            0 <= per,
    ;
}

/// Pair `i` of a bucket is multiplied, for output `o`, with row `o` of the bank of the bucket's
/// expert: the bytes behind the banks of the experts before and the rows before. The result stands
/// behind the buckets before and the outputs before, at the place of the pair.
pub proof fn law_pairs_meet_their_expert(
    ex: &Experts,
    tb: &Tables,
    pairs: &Pairs,
    acts: &ExpertActs,
    flat: Vec<Vec<Term>>,
    st: int,
    bpr: int,
    b: int,
    o: int,
    i: int,
    row: &[u8],
    sup: &[Q8],
    sup_one: Vec<Vec<Term>>,
    blk: &[Q8x32],
    blk_one: Vec<Vec<Term>>,
)
    requires
        call_ensures(moe_gemm, (ex, tb, pairs, acts), flat),
        pairs.buckets_ok(),
        acts.codes().len() == pairs.row@.len(),
        0 <= b < pairs.buckets@.len(),
        pairs.buckets@[b].expert < ex.n_expert,
        0 <= o < ex.out_f,
        0 <= i < pairs.buckets@[b].count,
        0 <= bpr,
        0 <= st,
        st * ex.n_expert <= ex.wbytes@.len() < (st + 1) * ex.n_expert,
        bpr * ex.out_f <= st < (bpr + 1) * ex.out_f,
        row@.len() == bpr,
        forall|x: int|
            0 <= x < bpr ==> #[trigger] row@[x] == ex.wbytes@[pairs.buckets@[b].expert * st + (o * bpr + x)],
        *acts == ExpertActs::Super(sup) || *acts == ExpertActs::Blk32(blk),
        call_ensures(crate::dispatch::dot_row_super, (ex.dt, tb, row, sup, ex.in_f), sup_one),
        call_ensures(crate::dispatch::dot_row_blk32, (ex.dt, tb, row, blk, ex.in_f), blk_one),
        sup@.len() == pairs.row@.len(),
        blk@.len() == pairs.row@.len(),
    ensures
        flat@.len() == ex.out_f * pairs.row@.len(),
        ({
            let bk = pairs.buckets@[b];
            let at = ex.out_f * bk.p0 + o * bk.count + i;
            &&& *acts == ExpertActs::Super(sup) ==> flat@[at]@ == sup_one@[bk.p0 + i]@
            &&& *acts == ExpertActs::Blk32(blk) ==> flat@[at]@ == blk_one@[bk.p0 + i]@
        }),
{
    let bk = pairs.buckets@[b];
    let e = bk.expert as int;
    lemma_bucket_ends(pairs, b);
    lemma_share(ex.wbytes@.len() as int, ex.n_expert as int, st, e);
    lemma_share(st, ex.out_f as int, bpr, o);
    assert(ex.row_of(e, o) =~= row@);
    assert(cell_ok(ex, tb, pairs.buckets@, acts.codes(), flat@, b, o, i));
    let p = bk.p0 + i;
    let at = ex.out_f * bk.p0 + o * bk.count + i;
    if *acts == ExpertActs::Super(sup) {
        assert(acts.codes() == crate::dispatch::super_codes(sup@));
        crate::laws::law_row_terms_unique(
            ex.dt,
            tb,
            flat@[at]@,
            sup_one@[p]@,
            row@,
            acts.codes()[p],
            ex.in_f as int,
        );
    } else {
        assert(acts.codes() == crate::dispatch::blk32_codes(blk@));
        crate::laws::law_row_terms_unique(
            ex.dt,
            tb,
            flat@[at]@,
            blk_one@[p]@,
            row@,
            acts.codes()[p],
            ex.in_f as int,
        );
    }
}

/// The row of a pair is read from where its outputs stand, and every such place belongs to its pair.
pub proof fn law_pair_rows<T: Copy>(
    flat: &[T],
    pairs: &Pairs,
    out_f: usize,
    p: usize,
    out: Vec<T>,
    places: Vec<usize>,
    o: int,
)
    requires
        call_ensures(pair_row::<T>, (flat, pairs, out_f, p), out),
        call_ensures(place_pairs, (pairs, out_f), places),
        0 <= o < out_f,
        p < pairs.row@.len(),
        pairs.bucket@[p as int] < pairs.buckets@.len(),
        pairs.local@[p as int] < pairs.buckets@[pairs.bucket@[p as int] as int].count,
        p == pairs.buckets@[pairs.bucket@[p as int] as int].p0 + pairs.local@[p as int],
    ensures
        out@.len() == out_f,
        ({
            let bk = pairs.buckets@[pairs.bucket@[p as int] as int];
            let at = out_f * bk.p0 + o * bk.count + pairs.local@[p as int];
            &&& out@[o] == flat@[at]
            &&& places@[at] == p
        }),
        places@.len() == out_f * pairs.row@.len(),
{
    let b = pairs.bucket@[p as int] as int;
    let bk = pairs.buckets@[b];
    let l = pairs.local@[p as int] as int;
    assert(out@[o] == flat@[place_of(out_f as int, bk, o, l)]);
    assert(places@[place_of(out_f as int, bk, o, l)] == bk.p0 + l);
}

/// Each pair has the activation row of its own row.
pub proof fn law_rows_are_gathered_for_pairs(
    rows: &[Q8],
    pairs: &Pairs,
    out: Vec<Q8>,
    rows32: &[Q8x32],
    out32: Vec<Q8x32>,
    p: int,
)
    requires
        call_ensures(gather_super, (rows, pairs), out),
        call_ensures(gather_blk32, (rows32, pairs), out32),
        0 <= p < pairs.row@.len(),
    ensures
        out@.len() == pairs.row@.len(),
        out@[p].qs@ == rows@[pairs.row@[p] as int].qs@,
        out@[p].d@ == rows@[pairs.row@[p] as int].d@,
        out32@.len() == pairs.row@.len(),
        out32@[p].qs@ == rows32@[pairs.row@[p] as int].qs@,
        out32@[p].d@ == rows32@[pairs.row@[p] as int].d@,
{
}

} // verus!
