use vstd::prelude::*;

verus! {

/// The value `n` rounded up to the next multiple of `to`.
pub open spec fn spec_align_to(n: int, to: int) -> int {
    if n % to == 0 {
        n
    } else {
        n + (to - n % to)
    }
}

/// Rounds `n` up to the next multiple of `to`.
pub fn align_to(n: u32, to: u32) -> (r: u32)
    requires
        to > 0,
        spec_align_to(n as int, to as int) <= u32::MAX,
    ensures
        r == spec_align_to(n as int, to as int),
{
    let rem = n % to;
    if rem == 0 {
        n
    } else {
        n + (to - rem)
    }
}

/// `align_to` gives a multiple of `to` within `to` above `n`.
pub proof fn lemma_align_to_bounds(n: int, to: int)
    requires
        n >= 0,
        to > 0,
    ensures
        spec_align_to(n, to) % to == 0,
        n <= spec_align_to(n, to) < n + to,
{
    let r = n % to;
    let q = n / to;
    assert(n == to * q + r) by (nonlinear_arith)
        requires
            to > 0,
            r == n % to,
            q == n / to,
    ;
    if r != 0 {
        assert((n + (to - r)) == to * (q + 1)) by (nonlinear_arith)
            requires
                n == to * q + r,
        ;
        assert((to * (q + 1)) % to == 0) by (nonlinear_arith)
            requires
                to > 0,
        ;
    }
}

/// `align_to` gives the least multiple of `to` that is not below `n`.
pub proof fn lemma_align_to_is_least_multiple(n: int, to: int, m: int)
    requires
        n >= 0,
        to > 0,
        m >= n,
        m % to == 0,
    ensures
        spec_align_to(n, to) <= m,
{
    lemma_align_to_bounds(n, to);
    let r = n % to;
    let q = n / to;
    assert(n == to * q + r) by (nonlinear_arith)
        requires
            to > 0,
            r == n % to,
            q == n / to,
    ;
    if r != 0 {
        let k = m / to;
        assert(m == to * k) by (nonlinear_arith)
            requires
                to > 0,
                m % to == 0,
                k == m / to,
        ;
        assert(k >= q + 1) by (nonlinear_arith)
            requires
                to > 0,
                m == to * k,
                m >= n,
                n == to * q + r,
                0 < r < to,
        ;
        assert(to * k >= to * (q + 1)) by (nonlinear_arith)
            requires
                to > 0,
                k >= q + 1,
        ;
        assert((n + (to - r)) == to * (q + 1)) by (nonlinear_arith)
            requires
                n == to * q + r,
        ;
    }
}

/// `align_to` leaves a value that is already aligned unchanged.
pub proof fn lemma_align_to_idempotent(n: int, to: int)
    requires
        n >= 0,
        to > 0,
    ensures
        spec_align_to(spec_align_to(n, to), to) == spec_align_to(n, to),
{
    lemma_align_to_bounds(n, to);
}

/// Rounds a byte count up to a multiple of 16.
pub fn round_up_16(bytes: u32) -> (r: u32)
    requires
        spec_align_to(bytes as int, 16) <= u32::MAX,
    ensures
        r == spec_align_to(bytes as int, 16),
{
    align_to(bytes, 16)
}

/// Whether `n` lies in the half-open range `i32::MIN .. i32::MAX`.
pub open spec fn spec_can_fit_in_i32(n: int) -> bool {
    i32::MIN <= n < i32::MAX
}

/// Whether `n` lies in `i32::MIN .. i32::MAX` (the upper bound itself excluded).
pub fn can_fit_in_i32(n: i64) -> (r: bool)
    ensures
        r == spec_can_fit_in_i32(n as int),
{
    let min: i64 = -2147483648;
    let max: i64 = 2147483647;
    min <= n && n < max
}

/// Pushing onto a sequence keeps its prefixes.
pub broadcast proof fn lemma_prefix_push<T>(a: Seq<T>, b: Seq<T>, x: T)
    requires
        #[trigger] a.is_prefix_of(b),
    ensures
        a.is_prefix_of(#[trigger] b.push(x)),
{
    assert(b.push(x).subrange(0, a.len() as int) =~= b.subrange(0, a.len() as int));
}

/// Being a prefix is transitive.
pub broadcast proof fn lemma_prefix_trans<T>(a: Seq<T>, b: Seq<T>, c: Seq<T>)
    requires
        #[trigger] a.is_prefix_of(b),
        #[trigger] b.is_prefix_of(c),
    ensures
        a.is_prefix_of(c),
{
    assert(c.subrange(0, a.len() as int) =~= b.subrange(0, a.len() as int));
}

/// A sequence's prefix agrees with it on the prefix's positions.
pub proof fn lemma_prefix_index<T>(a: Seq<T>, b: Seq<T>, k: int)
    requires
        a.is_prefix_of(b),
        0 <= k < a.len(),
    ensures
        b[k] == a[k],
{
    assert(a[k] == b.subrange(0, a.len() as int)[k]);
}

pub proof fn lemma_prefix_refl<T>(a: Seq<T>)
    ensures
        a.is_prefix_of(a),
{
    assert(a =~= a.subrange(0, a.len() as int));
}

} // verus!
