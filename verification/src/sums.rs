//! Integer dot products as finite sums, and the regrouping lemmas the kernels rest on.
use vstd::prelude::*;

verus! {

/// `w(0)*a[ao] + w(1)*a[ao+1] + ... + w(n-1)*a[ao+n-1]`: the dot product of `n` integer weights
/// with the activation codes that start at `ao`.
pub open spec fn wdot(w: spec_fn(int) -> int, a: Seq<i8>, ao: int, n: nat) -> int
    decreases n,
{
    if n == 0 {
        0
    } else {
        wdot(w, a, ao, (n - 1) as nat) + w(n - 1) * a[ao + n - 1]
    }
}

/// The sum of the `n` activation codes that start at `ao`.
pub open spec fn asum(a: Seq<i8>, ao: int, n: nat) -> int
    decreases n,
{
    if n == 0 {
        0
    } else {
        asum(a, ao, (n - 1) as nat) + a[ao + n - 1]
    }
}

/// Appending a segment whose weights are `c` times those of `g` adds `c` times the dot product
/// of that segment.
pub proof fn lemma_wdot_segment(
    w: spec_fn(int) -> int,
    g: spec_fn(int) -> int,
    c: int,
    a: Seq<i8>,
    ao: int,
    k: nat,
    n: nat,
)
    requires
        forall|j: int| 0 <= j < n ==> #[trigger] g(j) * c == w(k + j),
    ensures
        wdot(w, a, ao, k + n) == wdot(w, a, ao, k) + c * wdot(g, a, ao + k, n),
    decreases n,
{
    if n > 0 {
        lemma_wdot_segment(w, g, c, a, ao, k, (n - 1) as nat);
        let p = wdot(g, a, ao + k, (n - 1) as nat);
        let x: int = a[ao + k + n - 1] as int;
        let gj = g(n - 1);
        assert(gj * c == w(k + (n - 1)));
        assert((gj * c) * x + c * p == c * (p + gj * x)) by (nonlinear_arith);
        assert(k + n - 1 == (k + (n - 1)) as nat);
        assert(wdot(w, a, ao, k + n) == wdot(w, a, ao, (k + n - 1) as nat) + w(k + n - 1) * a[ao + (k + n) - 1]);
    } else {
        assert(c * 0 == 0) by (nonlinear_arith);
    }
}

/// Shifting every weight down by `c` takes `c` times the sum of the codes off the dot product.
pub proof fn lemma_wdot_shift(
    h: spec_fn(int) -> int,
    g: spec_fn(int) -> int,
    c: int,
    a: Seq<i8>,
    ao: int,
    n: nat,
)
    requires
        forall|j: int| 0 <= j < n ==> #[trigger] h(j) == g(j) - c,
    ensures
        wdot(h, a, ao, n) == wdot(g, a, ao, n) - c * asum(a, ao, n),
    decreases n,
{
    if n > 0 {
        lemma_wdot_shift(h, g, c, a, ao, (n - 1) as nat);
        let x: int = a[ao + n - 1] as int;
        let gj = g(n - 1);
        let s = asum(a, ao, (n - 1) as nat);
        assert(h(n - 1) == gj - c);
        assert((gj - c) * x - c * s == gj * x - c * (s + x)) by (nonlinear_arith);
    } else {
        assert(c * 0 == 0) by (nonlinear_arith);
    }
}

/// Constant weights `c` give `c` times the sum of the codes.
pub proof fn lemma_wdot_const(w: spec_fn(int) -> int, c: int, a: Seq<i8>, ao: int, n: nat)
    requires
        forall|j: int| 0 <= j < n ==> #[trigger] w(j) == c,
    ensures
        wdot(w, a, ao, n) == c * asum(a, ao, n),
    decreases n,
{
    if n > 0 {
        lemma_wdot_const(w, c, a, ao, (n - 1) as nat);
        assert(w(n - 1) == c);
        assert(c * asum(a, ao, (n - 1) as nat) + c * a[ao + n - 1] == c * (asum(a, ao, (n - 1) as nat)
            + a[ao + n - 1])) by (nonlinear_arith);
    } else {
        assert(c * 0 == 0) by (nonlinear_arith);
    }
}

/// A dot product of weights of magnitude at most `m` is at most `n * m * 128` in magnitude.
pub proof fn lemma_wdot_bound(w: spec_fn(int) -> int, m: int, a: Seq<i8>, ao: int, n: nat)
    requires
        0 <= m,
        forall|j: int| 0 <= j < n ==> -m <= #[trigger] w(j) <= m,
    ensures
        -(n * (m * 128)) <= wdot(w, a, ao, n) <= n * (m * 128),
    decreases n,
{
    if n > 0 {
        lemma_wdot_bound(w, m, a, ao, (n - 1) as nat);
        let x: int = a[ao + n - 1] as int;
        let v = w(n - 1);
        assert(-m <= v <= m);
        assert(-(m * 128) <= v * x <= m * 128) by (nonlinear_arith)
            requires
                0 <= m,
                -m <= v <= m,
                -128 <= x <= 127,
        ;
        assert((n - 1) * (m * 128) + m * 128 == n * (m * 128)) by (nonlinear_arith);
    } else {
        assert(0 * (m * 128) == 0) by (nonlinear_arith);
    }
}

/// A sum of `n` codes is at most `n * 128` in magnitude.
pub proof fn lemma_asum_bound(a: Seq<i8>, ao: int, n: nat)
    ensures
        -(n * 128) <= asum(a, ao, n) <= n * 128,
    decreases n,
{
    if n > 0 {
        lemma_asum_bound(a, ao, (n - 1) as nat);
    }
}

/// Changing one code by some amount changes the sum of a run that holds it by as much.
pub proof fn law_sum_follows_each_code(a: Seq<i8>, b: Seq<i8>, ao: int, n: nat, i: int)
    requires
        0 <= i < n,
        forall|j: int| 0 <= j < n && j != i ==> #[trigger] a[ao + j] == b[ao + j],
    ensures
        asum(b, ao, n) - asum(a, ao, n) == b[ao + i] - a[ao + i],
    decreases n,
{
    if i < n - 1 {
        assert(a[ao + (n - 1)] == b[ao + (n - 1)]);
        law_sum_follows_each_code(a, b, ao, (n - 1) as nat, i);
    } else {
        lemma_sums_agree(|j: int| 0, a, b, ao, (n - 1) as nat);
    }
}

/// Runs of equal codes have equal sums and dot products.
proof fn lemma_sums_agree(w: spec_fn(int) -> int, a: Seq<i8>, b: Seq<i8>, ao: int, n: nat)
    requires
        forall|j: int| 0 <= j < n ==> #[trigger] a[ao + j] == b[ao + j],
    ensures
        asum(b, ao, n) == asum(a, ao, n),
        wdot(w, b, ao, n) == wdot(w, a, ao, n),
    decreases n,
{
    if n > 0 {
        assert(a[ao + (n - 1)] == b[ao + (n - 1)]);
        lemma_sums_agree(w, a, b, ao, (n - 1) as nat);
    }
}

/// A run of zeros has the sum zero, and the dot product zero with any weights.
pub proof fn law_zeros_sum_to_zero(w: spec_fn(int) -> int, a: Seq<i8>, ao: int, n: nat)
    requires
        forall|j: int| 0 <= j < n ==> #[trigger] a[ao + j] == 0,
    ensures
        asum(a, ao, n) == 0,
        wdot(w, a, ao, n) == 0,
    decreases n,
{
    if n > 0 {
        assert(a[ao + (n - 1)] == 0);
        law_zeros_sum_to_zero(w, a, ao, (n - 1) as nat);
        assert(w(n - 1) * 0 == 0) by (nonlinear_arith);
    }
}

/// Changing one code by some amount changes the dot product by that amount times the weight that
/// the code meets.
pub proof fn law_dot_follows_each_code(w: spec_fn(int) -> int, a: Seq<i8>, b: Seq<i8>, ao: int, n: nat, i: int)
    requires
        0 <= i < n,
        forall|j: int| 0 <= j < n && j != i ==> #[trigger] a[ao + j] == b[ao + j],
    ensures
        wdot(w, b, ao, n) - wdot(w, a, ao, n) == w(i) * (b[ao + i] - a[ao + i]),
    decreases n,
{
    if i < n - 1 {
        assert(a[ao + (n - 1)] == b[ao + (n - 1)]);
        law_dot_follows_each_code(w, a, b, ao, (n - 1) as nat, i);
    } else {
        lemma_sums_agree(w, a, b, ao, (n - 1) as nat);
        assert(w(i) * (b[ao + i] - a[ao + i]) == w(i) * b[ao + i] - w(i) * a[ao + i]) by (nonlinear_arith);
    }
}

/// Runs of equal codes have equal dot products.
pub proof fn lemma_dots_agree(w: spec_fn(int) -> int, a: Seq<i8>, b: Seq<i8>, ao: int, n: nat)
    requires
        forall|j: int| 0 <= j < n ==> #[trigger] a[ao + j] == b[ao + j],
    ensures
        wdot(w, b, ao, n) == wdot(w, a, ao, n),
{
    lemma_sums_agree(w, a, b, ao, n);
}

} // verus!
