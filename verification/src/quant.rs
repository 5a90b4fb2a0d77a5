//! Quantized activations: signed 8-bit codes with their per-block scale and code sums.
use vstd::prelude::*;
use crate::sums::asum;

verus! {

/// An activation row in super-blocks of 256 codes. `d[b]` is the bit pattern of the
/// single-precision scale of super-block `b`; `bsums` and `bsums16` hold the sums of each run of
/// 32 and of 16 codes.
pub struct Q8 {
    pub qs: Vec<i8>,
    pub d: Vec<u32>,
    pub bsums: Vec<i32>,
    pub bsums16: Vec<i32>,
}

/// An activation row in blocks of 32 codes; `bsum[b]` is the sum of the codes of block `b`.
pub struct Q8x32 {
    pub qs: Vec<i8>,
    pub d: Vec<u32>,
    pub bsum: Vec<i32>,
}

impl Q8 {
    /// The number of super-blocks.
    pub open spec fn nb(&self) -> int {
        self.d@.len() as int
    }

    /// The lengths agree and the code sums are the sums of the codes.
    pub open spec fn wf(&self) -> bool {
        &&& self.qs@.len() == 256 * self.nb()
        &&& self.bsums@.len() == 8 * self.nb()
        &&& self.bsums16@.len() == 16 * self.nb()
        &&& forall|i: int| 0 <= i < self.bsums@.len() ==> #[trigger] self.bsums@[i] == asum(self.qs@, 32 * i, 32)
        &&& forall|i: int|
            0 <= i < self.bsums16@.len() ==> #[trigger] self.bsums16@[i] == asum(self.qs@, 16 * i, 16)
    }

    /// Pairs codes with their scales and computes the code sums. `None` if there are not exactly
    /// 256 codes to a scale.
    pub fn new(qs: Vec<i8>, d: Vec<u32>) -> (r: Option<Q8>)
        ensures
            r is Some <==> qs@.len() == 256 * d@.len(),
            r matches Some(q) ==> q.wf() && q.qs@ == qs@ && q.d@ == d@,
    {
        let n: usize = qs.len();
        if n % 256 != 0 || n / 256 != d.len() {
            return None;
        }
        let bsums: Vec<i32> = run_sums(&qs, 32);
        let bsums16: Vec<i32> = run_sums(&qs, 16);
        Some(Q8 { qs, d, bsums, bsums16 })
    }

    /// A copy of the row.
    pub fn copied(&self) -> (r: Q8)
        ensures
            r.qs@ == self.qs@,
            r.d@ == self.d@,
            r.bsums@ == self.bsums@,
            r.bsums16@ == self.bsums16@,
    {
        Q8 { qs: copy_all(&self.qs), d: copy_all(&self.d), bsums: copy_all(&self.bsums), bsums16: copy_all(&self.bsums16) }
    }
}

impl Q8x32 {
    /// The number of blocks.
    pub open spec fn nb(&self) -> int {
        self.d@.len() as int
    }

    /// The lengths agree and the code sums are the sums of the codes.
    pub open spec fn wf(&self) -> bool {
        &&& self.qs@.len() == 32 * self.nb()
        &&& self.bsum@.len() == self.nb()
        &&& forall|i: int| 0 <= i < self.bsum@.len() ==> #[trigger] self.bsum@[i] == asum(self.qs@, 32 * i, 32)
    }

    /// Pairs codes with their scales and computes the code sums. `None` if there are not exactly
    /// 32 codes to a scale.
    pub fn new(qs: Vec<i8>, d: Vec<u32>) -> (r: Option<Q8x32>)
        ensures
            r is Some <==> qs@.len() == 32 * d@.len(),
            r matches Some(q) ==> q.wf() && q.qs@ == qs@ && q.d@ == d@,
    {
        let n: usize = qs.len();
        if n % 32 != 0 || n / 32 != d.len() {
            return None;
        }
        let bsum: Vec<i32> = run_sums(&qs, 32);
        Some(Q8x32 { qs, d, bsum })
    }

    /// A copy of the row.
    pub fn copied(&self) -> (r: Q8x32)
        ensures
            r.qs@ == self.qs@,
            r.d@ == self.d@,
            r.bsum@ == self.bsum@,
    {
        Q8x32 { qs: copy_all(&self.qs), d: copy_all(&self.d), bsum: copy_all(&self.bsum) }
    }
}

/// A copy of a list.
fn copy_all<T: Copy>(v: &Vec<T>) -> (r: Vec<T>)
    ensures
        r@ == v@,
{
    let mut r: Vec<T> = Vec::new();
    let mut i: usize = 0;
    while i < v.len()
        invariant
            i <= v@.len(),
            r@ == v@.take(i as int),
        decreases v@.len() - i,
    {
        r.push(v[i]);
        assert(v@.take(i + 1) =~= v@.take(i as int).push(v@[i as int]));
        i = i + 1;
    }
    assert(v@.take(v@.len() as int) =~= v@);
    r
}

/// The sums of the whole runs of `run` codes.
pub fn run_sums(qs: &Vec<i8>, run: usize) -> (sums: Vec<i32>)
    requires
        0 < run <= 32,
    ensures
        sums@.len() == qs@.len() / run as nat,
        forall|i: int| 0 <= i < sums@.len() ==> #[trigger] sums@[i] == asum(qs@, run * i, run as nat),
{
    let len: usize = qs.len();
    let n: usize = len / run;
    let mut sums: Vec<i32> = Vec::new();
    let mut i: usize = 0;
    while i < n
        invariant
            0 < run <= 32,
            len == qs@.len(),
            n == qs@.len() / run as nat,
            i <= n,
            sums@.len() == i,
            forall|k: int| 0 <= k < i ==> #[trigger] sums@[k] == asum(qs@, run * k, run as nat),
        decreases n - i,
    {
        proof {
            assert((i + 1) * run <= qs@.len()) by (nonlinear_arith)
                requires
                    n == qs@.len() / run as nat,
                    i < n,
                    0 < run,
            ;
            assert(i * run + run == (i + 1) * run) by (nonlinear_arith);
            assert(0 <= i * run) by (nonlinear_arith);
            assert(i * run == run * i) by (nonlinear_arith);
        }
        let base: usize = i * run;
        let mut s: i32 = 0;
        let mut l: usize = 0;
        while l < run
            invariant
                0 < run <= 32,
                l <= run,
                len == qs@.len(),
                base + run <= qs@.len(),
                s == asum(qs@, base as int, l as nat),
                -128 * l <= s <= 128 * l,
            decreases run - l,
        {
            s = s + qs[base + l] as i32;
            l = l + 1;
        }
        sums.push(s);
        i = i + 1;
    }
    sums
}

/// One sum for each whole run: of a run of zeros it is zero, and a code that changes by some amount
/// changes the sum of its run by as much and no other.
pub proof fn law_run_sums(qs: &Vec<i8>, rs: &Vec<i8>, run: usize, s: Vec<i32>, t: Vec<i32>, k: int, i: int, m: int)
    requires
        call_ensures(run_sums, (qs, run), s),
        call_ensures(run_sums, (rs, run), t),
        0 < run,
        qs@.len() == rs@.len(),
        0 <= i < run,
        0 <= k < s@.len(),
        0 <= m < s@.len(),
        forall|x: int| 0 <= x < qs@.len() && x != run * k + i ==> #[trigger] qs@[x] == rs@[x],
    ensures
        s@.len() * run <= qs@.len() < s@.len() * run + run,
        t@.len() == s@.len(),
        t@[k] - s@[k] == rs@[run * k + i] - qs@[run * k + i],
        m != k ==> t@[m] == s@[m],
        (forall|j: int| 0 <= j < run ==> #[trigger] qs@[run * m + j] == 0) ==> s@[m] == 0,
{
    let n = qs@.len() as int;
    vstd::arithmetic::div_mod::lemma_fundamental_div_mod(n, run as int);
    vstd::arithmetic::div_mod::lemma_mod_bound(n, run as int);
    assert(run * (n / run as int) == (n / run as int) * run) by (nonlinear_arith);
    let q = s@.len() as int;
    assert(run * k + run <= run * q && run * m + run <= run * q && run * q == q * run) by (nonlinear_arith)
        requires
            k + 1 <= q,
            m + 1 <= q,
    ;
    assert(0 <= run * k && 0 <= run * m) by (nonlinear_arith)
        requires
            0 <= k,
            0 <= m,
    ;
    assert forall|j: int| 0 <= j < run && j != i implies #[trigger] qs@[run * k + j] == rs@[run * k + j] by {
        assert(qs@[run * k + j] == rs@[run * k + j]);
    }
    crate::sums::law_sum_follows_each_code(qs@, rs@, run * k, run as nat, i);
    if m != k {
        assert(run * m + run <= run * k || run * k + run <= run * m) by (nonlinear_arith)
            requires
                m != k,
        ;
        lemma_equal_runs(qs@, rs@, run * m, run as nat);
    }
    if forall|j: int| 0 <= j < run ==> #[trigger] qs@[run * m + j] == 0 {
        crate::sums::law_zeros_sum_to_zero(|j: int| 0, qs@, run * m, run as nat);
    }
}

/// Runs of equal codes have equal sums.
proof fn lemma_equal_runs(a: Seq<i8>, b: Seq<i8>, ao: int, n: nat)
    requires
        forall|j: int| 0 <= j < n ==> #[trigger] a[ao + j] == b[ao + j],
    ensures
        asum(a, ao, n) == asum(b, ao, n),
    decreases n,
{
    if n > 0 {
        assert(a[ao + (n - 1)] == b[ao + (n - 1)]);
        lemma_equal_runs(a, b, ao, (n - 1) as nat);
    }
}

/// An activation row of super-blocks holds the codes and scales that it was made from, one scale for
/// each 256 codes, and the sums of the runs of 32 and of 16.
pub proof fn law_super_row(qs: Vec<i8>, d: Vec<u32>, r: Option<Q8>, s32: Vec<i32>, s16: Vec<i32>)
    requires
        call_ensures(Q8::new, (qs, d), r),
        call_ensures(run_sums, (&qs, 32usize), s32),
        call_ensures(run_sums, (&qs, 16usize), s16),
    ensures
        r is Some <==> qs@.len() == 256 * d@.len(),
        r is Some ==> r->0.qs@ == qs@ && r->0.d@ == d@,
        r is Some ==> r->0.bsums@ == s32@ && r->0.bsums16@ == s16@,
{
    if r is Some {
        let q = r->0;
        assert(q.bsums@ =~= s32@);
        assert(q.bsums16@ =~= s16@);
    }
}

/// An activation row of 32-code blocks holds the codes and scales that it was made from, one scale
/// for each 32 codes, and the sums of the blocks.
pub proof fn law_blk32_row(qs: Vec<i8>, d: Vec<u32>, r: Option<Q8x32>, s32: Vec<i32>)
    requires
        call_ensures(Q8x32::new, (qs, d), r),
        call_ensures(run_sums, (&qs, 32usize), s32),
    ensures
        r is Some <==> qs@.len() == 32 * d@.len(),
        r is Some ==> r->0.qs@ == qs@ && r->0.d@ == d@,
        r is Some ==> r->0.bsum@ == s32@,
{
    if r is Some {
        assert(r->0.bsum@ =~= s32@);
    }
}

/// A copy is equal in every part.
pub proof fn law_copies(a: &Q8, b: Q8, c: &Q8x32, d: Q8x32)
    requires
        call_ensures(Q8::copied, (a,), b),
        call_ensures(Q8x32::copied, (c,), d),
    ensures
        a.qs@ == b.qs@ && a.d@ == b.d@ && a.bsums@ == b.bsums@ && a.bsums16@ == b.bsums16@,
        c.qs@ == d.qs@ && c.d@ == d.d@ && c.bsum@ == d.bsum@,
{
}

} // verus!
