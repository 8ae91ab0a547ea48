//! Payloads made of fixed-size records, and the index arithmetic on them.

use vstd::prelude::*;

verus! {

/// Record `i` of a payload of `w`-byte records.
pub open spec fn record(payload: Seq<u8>, i: int, w: int) -> Seq<u8> {
    payload.subrange(i * w, i * w + w)
}

/// Record `i` of `n` ends within the first `n` records.
pub proof fn lemma_record_in_bounds(i: int, n: int, w: int)
    requires
        0 <= i < n,
        w >= 0,
    ensures
        0 <= i * w,
        i * w + w <= n * w,
{
    vstd::arithmetic::mul::lemma_mul_inequality(0, i, w);
    vstd::arithmetic::mul::lemma_mul_inequality(i + 1, n, w);
    vstd::arithmetic::mul::lemma_mul_is_distributive_add_other_way(w, i, 1);
}

/// Byte `j` of the first `n` records lies in record `j / w`, at offset `j % w`.
pub proof fn lemma_split_index(j: int, w: int, n: int)
    requires
        w > 0,
        0 <= j < n * w,
    ensures
        0 <= j / w < n,
        0 <= j % w < w,
        j == (j / w) * w + j % w,
{
    vstd::arithmetic::div_mod::lemma_fundamental_div_mod(j, w);
    vstd::arithmetic::mul::lemma_mul_is_commutative(w, j / w);
    vstd::arithmetic::div_mod::lemma_div_pos_is_pos(j, w);
    vstd::arithmetic::div_mod::lemma_mod_bound(j, w);
    vstd::arithmetic::mul::lemma_mul_is_commutative(w, n);
    vstd::arithmetic::div_mod::lemma_multiply_divide_lt(j, w, n);
}

/// Appending one record after `n` records adds record `n` and keeps the others.
pub proof fn lemma_record_of_push(payload: Seq<u8>, rec: Seq<u8>, n: nat, w: int)
    requires
        w >= 0,
        payload.len() == n * w,
        rec.len() == w,
    ensures
        record(payload + rec, n as int, w) == rec,
        forall|i: int| 0 <= i < n ==> #[trigger] record(payload + rec, i, w) == record(payload, i, w),
{
    assert((payload + rec).subrange(n * w, n * w + w) =~= rec);
    assert forall|i: int| 0 <= i < n implies #[trigger] record(payload + rec, i, w) == record(payload, i, w) by {
        lemma_record_in_bounds(i, n as int, w);
        assert((payload + rec).subrange(i * w, i * w + w) =~= payload.subrange(i * w, i * w + w));
    }
}

/// Cutting a payload to its first `n` records keeps those records.
pub proof fn lemma_record_prefix(payload: Seq<u8>, n: nat, w: int)
    requires
        w >= 0,
        payload.len() >= n * w,
    ensures
        forall|i: int| 0 <= i < n ==> #[trigger] record(payload.take(n * w), i, w) == record(payload, i, w),
{
    assert forall|i: int| 0 <= i < n implies #[trigger] record(payload.take(n * w), i, w) == record(payload, i, w) by {
        lemma_record_in_bounds(i, n as int, w);
        assert(payload.take(n * w).subrange(i * w, i * w + w) =~= payload.subrange(i * w, i * w + w));
    }
}

/// In `a + b`, with `a` made of `n` records, the records of `a` come first and
/// then those of `b`.
pub proof fn lemma_record_concat(a: Seq<u8>, b: Seq<u8>, n: nat, w: int)
    requires
        w >= 0,
        a.len() == n * w,
    ensures
        forall|i: int| 0 <= i < n ==> #[trigger] record(a + b, i, w) == record(a, i, w),
        forall|i: int| 0 <= i && i * w + w <= b.len() ==> #[trigger] record(a + b, n + i, w) == record(b, i, w),
{
    assert forall|i: int| 0 <= i < n implies #[trigger] record(a + b, i, w) == record(a, i, w) by {
        lemma_record_in_bounds(i, n as int, w);
        assert((a + b).subrange(i * w, i * w + w) =~= a.subrange(i * w, i * w + w));
    }
    assert forall|i: int| 0 <= i && i * w + w <= b.len() implies #[trigger] record(a + b, n + i, w) == record(b, i, w) by {
        vstd::arithmetic::mul::lemma_mul_is_distributive_add_other_way(w, n as int, i);
        assert((a + b).subrange((n + i) * w, (n + i) * w + w) =~= b.subrange(i * w, i * w + w));
    }
}

/// The first `N` bytes of `s` from `start`, as a fixed buffer.
pub(crate) fn copy_array<const N: usize>(s: &[u8], start: usize) -> (out: [u8; N])
    requires
        start + N <= s@.len(),
    ensures
        out@ == s@.subrange(start as int, start + N),
{
    let len = s.len();
    let mut out = [0u8; N];
    let mut i: usize = 0;
    while i < N
        invariant
            i <= N,
            len == s@.len(),
            start + N <= s@.len(),
            out@.len() == N,
            forall|j: int| 0 <= j < i ==> out@[j] == s@[start + j],
        decreases N - i,
    {
        out[i] = s[start + i];
        i = i + 1;
    }
    assert(out@ =~= s@.subrange(start as int, start + N));
    out
}

/// Appends `s` to `out`.
pub(crate) fn append(out: &mut Vec<u8>, s: &[u8])
    ensures
        final(out)@ == old(out)@ + s@,
{
    let len = s.len();
    let mut i: usize = 0;
    while i < len
        invariant
            len == s@.len(),
            i <= len,
            out@ == old(out)@ + s@.take(i as int),
        decreases len - i,
    {
        out.push(s[i]);
        assert(s@.take(i + 1) == s@.take(i as int).push(s@[i as int]));
        i = i + 1;
    }
    assert(s@.take(len as int) == s@);
}

} // verus!
