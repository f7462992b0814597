//! Reed-Solomon forward error correction for CCSDS spacecraft telemetry.
//!
//! Decodes and corrects the RS(255,223) code blocks described by the CCSDS
//! TM synchronization and channel coding standard: a 255-byte block holds
//! 223 message bytes followed by 32 parity bytes, transmitted in dual-basis
//! symbol representation, and up to 16 corrupted symbols can be repaired.
//! This is not a general-purpose Reed-Solomon library: the field, generator,
//! first consecutive root and parity length are the fixed CCSDS parameters.
use vstd::prelude::*;

pub mod dual_basis;
pub mod gf;

verus! {

/// Symbols per code word.
pub const N: u8 = 255;

/// Bits per symbol.
#[allow(unused)]
pub const J: u8 = 8;

/// Irreducible primitive polynomial x^8 + x^7 + x^2 + x + 1.
#[allow(unused)]
pub const PRIM: i32 = 391;

/// Generator element: alpha^11.
pub const GEN: u8 = 173;

/// First consecutive root exponent in g(x): 128 - E.
pub const FCR: i32 = 112;

/// Number of bytes of parity for each message.
pub const PARITY_LEN: usize = 32;

/// True when every element of the sequence is zero; an all-zero syndrome
/// vector certifies a valid codeword.
pub open spec fn all_zero(s: Seq<u8>) -> bool {
    forall|i: int| 0 <= i < s.len() ==> s[i] == 0
}

/// The syndrome vector of a conventional-basis block: element 0 is a zero
/// placeholder, and element i (for i in 1..=parity_len) is the block
/// evaluated at GEN^(i - 1 + FCR).
pub open spec fn syndromes_spec(input: Seq<u8>, parity_len: nat) -> Seq<u8> {
    Seq::new(
        parity_len + 1,
        |i: int|
            if i == 0 {
                0u8
            } else {
                gf::poly_eval_spec(input, gf::gf_pow(GEN, ((i - 1 + FCR as int) % 255) as nat))
            },
    )
}

/// Compute the syndromes of a code block: the block, read as a polynomial,
/// is evaluated at parity_len consecutive powers of the generator element
/// starting at exponent FCR; a leading zero sentinel is prepended.
pub fn calc_syndromes(input: &[u8], parity_len: usize) -> (synd: Vec<u8>)
    requires
        parity_len + FCR as int <= i32::MAX,
        parity_len + 1 <= usize::MAX,
    ensures
        synd@ == syndromes_spec(input@, parity_len as nat),
{
    let mut synd: Vec<u8> = vec![0u8; parity_len + 1];
    let mut i: usize = 0;
    while i < parity_len
        invariant
            i <= parity_len,
            parity_len + FCR as int <= i32::MAX,
            synd@.len() == parity_len + 1,
            forall|k: int| 0 <= k <= i ==> synd@[k] == syndromes_spec(input@, parity_len as nat)[k],
            forall|k: int| i < k < synd@.len() ==> synd@[k] == 0,
        decreases parity_len - i,
    {
        let p = gf::pow(GEN, i as i32 + FCR);
        synd.set(i + 1, gf::poly_eval(input, p));
        i = i + 1;
    }
    proof {
        assert(synd@ =~= syndromes_spec(input@, parity_len as nat));
    }
    synd
}

/// True when the slice holds a nonzero byte: a maximum scan over a
/// syndrome vector, deciding whether any check failed.
fn max_nonzero(v: &[u8]) -> (r: bool)
    ensures
        r == !all_zero(v@),
{
    let mut x: u8 = 0;
    let mut i: usize = 0;
    while i < v.len()
        invariant
            i <= v@.len(),
            (x == 0) <==> (forall|k: int| 0 <= k < i ==> v@[k] == 0),
        decreases v@.len() - i,
    {
        if v[i] > x {
            x = v[i];
        }
        i = i + 1;
    }
    x != 0
}

/// One fold of the Forney recursion over the working syndrome vector:
/// every element but the last becomes itself times x plus its right
/// neighbour.
pub open spec fn forney_fold(f: Seq<u8>, x: u8) -> Seq<u8> {
    Seq::new(
        f.len(),
        |j: int|
            if j < f.len() - 1 {
                gf::gf_mul(f[j], x) ^ f[j + 1]
            } else {
                f[j]
            },
    )
}

/// The working syndrome vector after folding in the first n erasure
/// positions, each taken reciprocally as GEN^(nmess - 1 - position).
pub open spec fn forney_rec(f: Seq<u8>, pos: Seq<i32>, nmess: int, n: int) -> Seq<u8>
    decreases n,
{
    if n <= 0 {
        f
    } else {
        forney_fold(
            forney_rec(f, pos, nmess, n - 1),
            gf::gf_pow(GEN, ((nmess - 1 - pos[n - 1]) % 255) as nat),
        )
    }
}

/// The Forney syndromes: the sentinel is dropped from the syndrome vector
/// and every known erasure position is folded in. With no erasures this is
/// a plain one-element left shift.
pub open spec fn forney_spec(synd: Seq<u8>, pos: Seq<i32>, nmess: int) -> Seq<u8> {
    forney_rec(synd.skip(1), pos, nmess, pos.len() as int)
}

/// Compute the Forney syndromes of a block of length nmess from its
/// syndrome vector and the known erasure positions.
pub fn forney_syndromes(synd: &[u8], pos: &[i32], nmess: i32) -> (fsynd: Vec<u8>)
    requires
        synd@.len() >= 1,
        (i32::MIN as int) < nmess,
        forall|i: int|
            0 <= i < pos@.len() ==> i32::MIN as int <= nmess - 1 - (#[trigger] pos@[i]) <= i32::MAX as int,
    ensures
        fsynd@ == forney_spec(synd@, pos@, nmess as int),
{
    let mut fsynd: Vec<u8> = Vec::new();
    let mut i: usize = 1;
    while i < synd.len()
        invariant
            1 <= i <= synd@.len(),
            fsynd@ =~= synd@.subrange(1, i as int),
        decreases synd@.len() - i,
    {
        fsynd.push(synd[i]);
        i = i + 1;
    }
    proof {
        assert(fsynd@ =~= synd@.skip(1));
    }
    let mut t: usize = 0;
    while t < pos.len()
        invariant
            t <= pos@.len(),
            (i32::MIN as int) < nmess,
            forall|i: int|
                0 <= i < pos@.len() ==> i32::MIN as int <= nmess - 1 - (#[trigger] pos@[i]) <= i32::MAX as int,
            fsynd@ == forney_rec(synd@.skip(1), pos@, nmess as int, t as int),
        decreases pos@.len() - t,
    {
        let x = gf::pow(GEN, nmess - 1 - pos[t]);
        let ghost before = fsynd@;
        let m = fsynd.len();
        let mut j: usize = 0;
        while j + 1 < m
            invariant
                m == 0 ==> j == 0,
                m > 0 ==> j < m,
                m == fsynd@.len(),
                fsynd@.len() == before.len(),
                forall|k: int| 0 <= k < j ==> fsynd@[k] == gf::gf_mul(before[k], x) ^ before[k + 1],
                forall|k: int| j <= k < m ==> fsynd@[k] == before[k],
            decreases m - j,
        {
            fsynd.set(j, gf::mult(fsynd[j], x) ^ fsynd[j + 1]);
            j = j + 1;
        }
        proof {
            assert(fsynd@ =~= forney_fold(before, x));
        }
        t = t + 1;
    }
    fsynd
}

/// The errata locator polynomial built from the first n reciprocal
/// positions: the product of the degree-1 factors (1 + GEN^p * x).
pub open spec fn errata_locator_rec(pos: Seq<i32>, n: int) -> Seq<u8>
    decreases n,
{
    if n <= 0 {
        seq![1u8]
    } else {
        gf::poly_mul_spec(
            errata_locator_rec(pos, n - 1),
            gf::poly_add_spec(
                seq![1u8],
                seq![gf::gf_pow(GEN, (pos[n - 1] as int % 255) as nat), 0u8],
            ),
        )
    }
}

/// The errata locator polynomial of a full set of reciprocal positions.
pub open spec fn errata_locator_spec(pos: Seq<i32>) -> Seq<u8> {
    errata_locator_rec(pos, pos.len() as int)
}

/// The errata locator of n positions has exactly degree n.
pub proof fn lemma_errata_locator_len(pos: Seq<i32>, n: int)
    requires
        0 <= n,
    ensures
        errata_locator_rec(pos, n).len() == n + 1,
    decreases n,
{
    if n > 0 {
        lemma_errata_locator_len(pos, n - 1);
    }
}

/// Build the errata locator polynomial from known reciprocal error
/// positions: the product of one degree-1 factor per position.
pub fn find_errata_locator(errpos: &[i32]) -> (errloc: Vec<u8>)
    requires
        errpos@.len() + 2 <= usize::MAX,
    ensures
        errloc@ == errata_locator_spec(errpos@),
{
    let mut errloc: Vec<u8> = vec![1u8];
    let mut i: usize = 0;
    while i < errpos.len()
        invariant
            i <= errpos@.len(),
            errpos@.len() + 2 <= usize::MAX,
            errloc@ == errata_locator_rec(errpos@, i as int),
            errloc@.len() == i + 1,
        decreases errpos@.len() - i,
    {
        let mut x: Vec<u8> = Vec::new();
        x.push(gf::pow(GEN, errpos[i]));
        x.push(0);
        let one: Vec<u8> = vec![1u8];
        let y = gf::poly_add(one.as_slice(), x.as_slice());
        proof {
            assert(x@ =~= seq![gf::gf_pow(GEN, (errpos@[i as int] as int % 255) as nat), 0u8]);
            assert(one@ =~= seq![1u8]);
        }
        errloc = gf::poly_mult(errloc.as_slice(), y.as_slice());
        proof {
            lemma_errata_locator_len(errpos@, i + 1);
        }
        i = i + 1;
    }
    errloc
}

/// The polynomial x^(m-1) written as a fixed-length coefficient sequence: a
/// leading one followed by m - 1 zeros.
pub open spec fn x_pow_seq(m: int) -> Seq<u8> {
    Seq::new(
        m as nat,
        |i: int|
            if i == 0 {
                1u8
            } else {
                0u8
            },
    )
}

/// The error evaluator polynomial: the remainder of synd * errloc divided
/// by x^(n+1), kept at fixed length n + 1.
pub open spec fn error_evaluator_spec(synd: Seq<u8>, errloc: Seq<u8>, n: int) -> Seq<u8> {
    gf::poly_div_rem(gf::poly_mul_spec(synd, errloc), x_pow_seq(n + 2))
}

/// Compute the error evaluator polynomial from the (reversed) syndromes and
/// the errata locator, truncated below x^(n+1).
pub fn find_error_evaluator(synd: &[u8], errloc: &[u8], n: i32) -> (rem: Vec<u8>)
    requires
        n >= 0,
        n + 2 <= usize::MAX,
        synd@.len() + errloc@.len() >= 1,
        synd@.len() + errloc@.len() <= usize::MAX,
        synd@.len() + errloc@.len() >= n + 2,
    ensures
        rem@ == error_evaluator_spec(synd@, errloc@, n as int),
{
    let mut divisor: Vec<u8> = vec![0u8; (n as usize) + 2];
    divisor.set(0, 1);
    proof {
        assert(divisor@ =~= x_pow_seq(n + 2));
    }
    let prod = gf::poly_mult(synd, errloc);
    let qr = gf::poly_div(prod.as_slice(), divisor.as_slice());
    qr.1
}

/// The error positions found by evaluating the reversed locator at the
/// first n powers of the generator element: a root at GEN^i marks an error
/// at byte offset 255 - 1 - i.
pub open spec fn error_positions_rec(errloc: Seq<u8>, n: int) -> Seq<i32>
    decreases n,
{
    if n <= 0 {
        Seq::empty()
    } else {
        let prev = error_positions_rec(errloc, n - 1);
        if gf::poly_eval_spec(errloc, gf::gf_pow(GEN, ((n - 1) % 255) as nat)) == 0 {
            prev.push((255 - n) as i32)
        } else {
            prev
        }
    }
}

/// The error positions of a reversed locator polynomial, searched over the
/// whole field.
pub open spec fn error_positions_spec(errloc: Seq<u8>) -> Seq<i32> {
    error_positions_rec(errloc, 255)
}

/// Brute-force root search: evaluate the (reversed) locator polynomial at
/// every power of the generator element and record the byte offsets whose
/// elements are roots.
pub fn find_errors(errloc: &[u8]) -> (errpos: Vec<i32>)
    ensures
        errpos@ == error_positions_spec(errloc@),
{
    let mut errpos: Vec<i32> = Vec::new();
    let n = N as i32;
    let mut i: i32 = 0;
    while i < n
        invariant
            0 <= i <= 255,
            n == 255,
            errpos@ == error_positions_rec(errloc@, i as int),
        decreases n - i,
    {
        if gf::poly_eval(errloc, gf::pow(GEN, i)) == 0 {
            errpos.push(n - 1 - i);
        }
        i = i + 1;
    }
    errpos
}

/// The discrepancy of the locator solver at step k: the syndrome at k plus
/// the fold of the locator's most recent coefficients with the j previous
/// syndromes.
pub open spec fn bm_delta(synd: Seq<u8>, e: Seq<u8>, k: int, j: int) -> u8
    decreases j,
{
    if j <= 0 {
        synd[k]
    } else {
        bm_delta(synd, e, k, j - 1) ^ gf::gf_mul(e[e.len() - j - 1], synd[k - j])
    }
}

/// One step of the minimal-polynomial iteration on the pair of the current
/// locator e and the alternate locator o: the alternate grows by one
/// position; on a nonzero discrepancy the correction is folded in, with the
/// two polynomials swapped (scaled by the discrepancy and its inverse) when
/// the alternate has grown longer.
pub open spec fn bm_step(synd: Seq<u8>, k: int, e: Seq<u8>, o: Seq<u8>) -> (Seq<u8>, Seq<u8>) {
    let delta = bm_delta(synd, e, k, e.len() - 1);
    let o1 = o.push(0);
    if delta != 0 {
        if o1.len() > e.len() {
            let e2 = gf::poly_scale_spec(o1, delta);
            let o2 = gf::poly_scale_spec(e, gf::gf_inv(delta));
            (gf::poly_add_spec(e2, gf::poly_scale_spec(o2, delta)), o2)
        } else {
            (gf::poly_add_spec(e, gf::poly_scale_spec(o1, delta)), o1)
        }
    } else {
        (e, o1)
    }
}

/// The locator pair after the first n steps of the iteration, both starting
/// from the constant polynomial one.
pub open spec fn bm_iter(synd: Seq<u8>, shift: int, n: int) -> (Seq<u8>, Seq<u8>)
    decreases n,
{
    if n <= 0 {
        (seq![1u8], seq![1u8])
    } else {
        let prev = bm_iter(synd, shift, n - 1);
        bm_step(synd, (n - 1) + shift, prev.0, prev.1)
    }
}

/// How far the syndrome window is shifted when more syndromes are supplied
/// than the iteration consumes.
pub open spec fn bm_shift(synd_len: int, parity_len: int) -> int {
    if synd_len > parity_len {
        synd_len - parity_len
    } else {
        0
    }
}

/// The sequence with its leading zero elements removed.
pub open spec fn strip_leading_zeros(p: Seq<u8>) -> Seq<u8>
    decreases p.len(),
{
    if p.len() > 0 && p[0] == 0 {
        strip_leading_zeros(p.skip(1))
    } else {
        p
    }
}

/// The error locator polynomial: the locator after parity_len iteration
/// steps, with leading zero coefficients stripped.
pub open spec fn error_locator_spec(synd: Seq<u8>, parity_len: int) -> Seq<u8> {
    strip_leading_zeros(bm_iter(synd, bm_shift(synd.len() as int, parity_len), parity_len).0)
}

/// Through every iteration step the locator pair keeps bounded lengths and
/// the current locator keeps a nonzero trailing coefficient, because the
/// field has no zero divisors.
pub proof fn lemma_bm_iter_wf(synd: Seq<u8>, shift: int, n: int)
    requires
        0 <= n,
    ensures
        1 <= bm_iter(synd, shift, n).0.len() <= n + 1,
        1 <= bm_iter(synd, shift, n).1.len() <= n + 1,
        bm_iter(synd, shift, n).0.last() != 0,
    decreases n,
{
    if n > 0 {
        lemma_bm_iter_wf(synd, shift, n - 1);
        let prev = bm_iter(synd, shift, n - 1);
        let e = prev.0;
        let o = prev.1;
        let k = (n - 1) + shift;
        let delta = bm_delta(synd, e, k, e.len() - 1);
        let o1 = o.push(0);
        if delta != 0 {
            gf::lemma_mul_zero(delta);
            if o1.len() > e.len() {
                let e2 = gf::poly_scale_spec(o1, delta);
                let o2 = gf::poly_scale_spec(e, gf::gf_inv(delta));
                let s = gf::poly_scale_spec(o2, delta);
                let r = gf::poly_add_spec(e2, s);
                let ll = e2.len() as int;
                assert(e2[ll - 1] == gf::gf_mul(o1[o1.len() - 1], delta));
                assert(o2[e.len() - 1] == gf::gf_mul(e.last(), gf::gf_inv(delta)));
                gf::lemma_gf_pow_nonzero(delta, 254);
                gf::lemma_gf_mul_nonzero(e.last(), gf::gf_inv(delta));
                gf::lemma_gf_mul_nonzero(o2[e.len() - 1], delta);
                assert(r[ll - 1] == gf::pad_coef(e2, ll, ll - 1) ^ gf::pad_coef(s, ll, ll - 1));
                assert(gf::pad_coef(e2, ll, ll - 1) == 0);
                assert(gf::pad_coef(s, ll, ll - 1) == s[o2.len() - 1]);
                gf::lemma_xor_zero(s[o2.len() - 1]);
                assert(r.last() != 0);
            } else {
                let s = gf::poly_scale_spec(o1, delta);
                let r = gf::poly_add_spec(e, s);
                let ll = e.len() as int;
                assert(r[ll - 1] == gf::pad_coef(e, ll, ll - 1) ^ gf::pad_coef(s, ll, ll - 1));
                assert(gf::pad_coef(e, ll, ll - 1) == e.last());
                assert(gf::pad_coef(s, ll, ll - 1) == gf::gf_mul(o1[o1.len() - 1], delta));
                gf::lemma_xor_zero(e.last());
                assert(r.last() == e.last());
            }
        }
    }
}

/// Stripping leading zeros never lengthens a sequence, and keeps a nonzero
/// trailing coefficient together with at least that one element.
pub proof fn lemma_strip_last(p: Seq<u8>)
    ensures
        strip_leading_zeros(p).len() <= p.len(),
        p.len() > 0 && p.last() != 0 ==> strip_leading_zeros(p).len() >= 1
            && strip_leading_zeros(p).last() == p.last(),
    decreases p.len(),
{
    if p.len() > 0 && p[0] == 0 {
        lemma_strip_last(p.skip(1));
        if p.len() > 0 && p.last() != 0 {
            assert(p.skip(1).len() > 0);
            assert(p.skip(1).last() == p.last());
        }
    }
}

/// The stripped locator of the full iteration is nonempty, of degree at
/// most parity_len, and ends in a nonzero coefficient.
pub proof fn lemma_error_locator_wf(synd: Seq<u8>, parity_len: int)
    requires
        0 <= parity_len,
    ensures
        1 <= error_locator_spec(synd, parity_len).len() <= parity_len + 1,
        error_locator_spec(synd, parity_len).last() != 0,
{
    let shift = bm_shift(synd.len() as int, parity_len);
    lemma_bm_iter_wf(synd, shift, parity_len);
    lemma_strip_last(bm_iter(synd, shift, parity_len).0);
}

/// Derive the error locator polynomial from the Forney syndromes by the
/// iterative minimal-polynomial (shortest linear recurrence) method, run
/// for parity_len steps; leading zero coefficients are stripped from the
/// result.
pub fn find_error_locator(synd: &[u8], parity_len: usize) -> (errloc: Vec<u8>)
    requires
        synd@.len() >= parity_len,
        parity_len + 1 <= usize::MAX,
    ensures
        errloc@ == error_locator_spec(synd@, parity_len as int),
{
    let mut errloc: Vec<u8> = vec![1u8];
    let mut oldloc: Vec<u8> = vec![1u8];
    let sl = synd.len();
    let mut synd_shift: usize = 0;
    if sl > parity_len {
        synd_shift = sl - parity_len;
    }
    proof {
        assert(errloc@ =~= seq![1u8]);
        assert(oldloc@ =~= seq![1u8]);
    }
    let mut i: usize = 0;
    while i < parity_len
        invariant
            i <= parity_len,
            sl == synd@.len(),
            sl >= parity_len,
            synd_shift + parity_len == sl,
            parity_len + 1 <= usize::MAX,
            synd_shift == bm_shift(synd@.len() as int, parity_len as int),
            errloc@ == bm_iter(synd@, synd_shift as int, i as int).0,
            oldloc@ == bm_iter(synd@, synd_shift as int, i as int).1,
            1 <= errloc@.len() <= i + 1,
            1 <= oldloc@.len() <= i + 1,
        decreases parity_len - i,
    {
        let k = i + synd_shift;
        let ghost e0 = errloc@;
        let ghost o0 = oldloc@;
        let mut delta = synd[k];
        let mut j: usize = 1;
        while j < errloc.len()
            invariant
                1 <= j <= errloc@.len(),
                errloc@ == e0,
                1 <= e0.len() <= i + 1,
                i < parity_len,
                synd@.len() >= parity_len,
                k == i + synd_shift,
                k < synd@.len(),
                delta == bm_delta(synd@, e0, k as int, j - 1),
            decreases errloc@.len() - j,
        {
            delta = delta ^ gf::mult(errloc[errloc.len() - j - 1], synd[k - j]);
            j = j + 1;
        }
        proof {
            assert(delta == bm_delta(synd@, e0, k as int, e0.len() - 1));
        }
        oldloc.push(0);
        if delta != 0 {
            if oldloc.len() > errloc.len() {
                let newloc = gf::poly_scale(oldloc.as_slice(), delta);
                let di = gf::inv(delta);
                let tmp = gf::poly_scale(errloc.as_slice(), di);
                oldloc = tmp;
                errloc = newloc;
            }
            let scaled = gf::poly_scale(oldloc.as_slice(), delta);
            let sum = gf::poly_add(errloc.as_slice(), scaled.as_slice());
            errloc = sum;
        }
        proof {
            assert(errloc@ == bm_step(synd@, k as int, e0, o0).0);
            assert(oldloc@ == bm_step(synd@, k as int, e0, o0).1);
            assert(errloc@ == bm_iter(synd@, synd_shift as int, i + 1 as int).0);
            assert(oldloc@ == bm_iter(synd@, synd_shift as int, i + 1 as int).1);
            lemma_bm_iter_wf(synd@, synd_shift as int, i + 1 as int);
        }
        i = i + 1;
    }
    let ghost full = bm_iter(synd@, synd_shift as int, parity_len as int).0;
    while errloc.len() > 0 && errloc[0] == 0
        invariant
            strip_leading_zeros(errloc@) == strip_leading_zeros(full),
        decreases errloc@.len(),
    {
        let ghost before = errloc@;
        errloc.remove(0);
        proof {
            assert(errloc@ =~= before.skip(1));
        }
    }
    errloc
}

/// The elements of a slice in reverse order.
fn reversed(v: &[u8]) -> (r: Vec<u8>)
    ensures
        r@ == v@.reverse(),
{
    let mut r: Vec<u8> = Vec::new();
    let mut i: usize = v.len();
    while i > 0
        invariant
            i <= v@.len(),
            r@.len() == v@.len() - i,
            forall|k: int| 0 <= k < r@.len() ==> r@[k] == v@[v@.len() - 1 - k],
        decreases i,
    {
        i = i - 1;
        r.push(v[i]);
    }
    proof {
        assert(r@ =~= v@.reverse());
    }
    r
}

/// The reciprocal coefficient positions of error positions in a block of
/// the given length: position p becomes len - 1 - p.
pub open spec fn coef_positions(input_len: int, errpos: Seq<i32>) -> Seq<i32> {
    Seq::new(errpos.len(), |i: int| (input_len - 1 - errpos[i]) as i32)
}

/// The field element standing for one reciprocal position:
/// GEN^(-(255 - p)), the reciprocal of the position's locator root.
pub open spec fn errata_x(coef_pos: Seq<i32>, i: int) -> u8 {
    gf::gf_pow(GEN, ((coef_pos[i] - 255) % 255) as nat)
}

/// The formal-derivative denominator of the Forney magnitude at position i,
/// accumulated over the first n positions other than i:
/// the product of (1 + X_i^-1 * X_j).
pub open spec fn denom_prod(x: Seq<u8>, xi_inv: u8, i: int, n: int) -> u8
    decreases n,
{
    if n <= 0 {
        1
    } else {
        let rest = denom_prod(x, xi_inv, i, n - 1);
        if n - 1 == i {
            rest
        } else {
            gf::gf_mul(rest, 1 ^ gf::gf_mul(xi_inv, x[n - 1]))
        }
    }
}

/// The full Forney denominator at position i.
pub open spec fn errata_denominator(coef_pos: Seq<i32>, i: int) -> u8 {
    denom_prod(
        Seq::new(coef_pos.len(), |j: int| errata_x(coef_pos, j)),
        gf::gf_inv(errata_x(coef_pos, i)),
        i,
        coef_pos.len() as int,
    )
}

/// The error evaluator polynomial used by the corrector: computed from the
/// reversed syndromes and the errata locator of the reciprocal positions.
pub open spec fn errata_evaluator(synd: Seq<u8>, coef_pos: Seq<i32>) -> Seq<u8> {
    let errloc = errata_locator_spec(coef_pos);
    error_evaluator_spec(synd.reverse(), errloc, errloc.len() - 1)
}

/// The Forney error magnitude at position i: the evaluator at X_i^-1,
/// scaled by X_i^(1 - FCR) and divided by the denominator.
pub open spec fn errata_magnitude(erreval: Seq<u8>, coef_pos: Seq<i32>, i: int) -> u8 {
    let xi = errata_x(coef_pos, i);
    let y = gf::gf_mul(
        gf::gf_pow(xi, ((1 - FCR as int) % 255) as nat),
        gf::poly_eval_spec(erreval, gf::gf_inv(xi)),
    );
    gf::gf_div(y, errata_denominator(coef_pos, i))
}

/// The error vector after the first n magnitudes are written at their
/// positions, over an all-zero vector of the block's length.
pub open spec fn errata_e_rec(
    len: int,
    erreval: Seq<u8>,
    coef_pos: Seq<i32>,
    errpos: Seq<i32>,
    n: int,
) -> Seq<u8>
    decreases n,
{
    if n <= 0 {
        Seq::new(len as nat, |k: int| 0u8)
    } else {
        errata_e_rec(len, erreval, coef_pos, errpos, n - 1).update(
            errpos[n - 1] as int,
            errata_magnitude(erreval, coef_pos, n - 1),
        )
    }
}

/// True when some position's Forney denominator degenerates to zero, the
/// case the corrector reports as an algorithm failure.
pub open spec fn errata_failed(coef_pos: Seq<i32>) -> bool {
    exists|i: int| 0 <= i < coef_pos.len() && errata_denominator(coef_pos, i) == 0
}

/// The corrected block: the input plus the error vector of all the Forney
/// magnitudes.
pub open spec fn corrected_spec(input: Seq<u8>, synd: Seq<u8>, errpos: Seq<i32>) -> Seq<u8> {
    let coef_pos = coef_positions(input.len() as int, errpos);
    let erreval = errata_evaluator(synd, coef_pos);
    gf::poly_add_spec(
        input,
        errata_e_rec(input.len() as int, erreval, coef_pos, errpos, errpos.len() as int),
    )
}

/// Correct the block at the known error positions by the Forney algorithm:
/// build the errata locator and error evaluator, compute each position's
/// error magnitude, and add (XOR) the magnitudes into the block. Fails
/// exactly when some position's denominator degenerates to zero.
pub fn correct_errata(input: &[u8], synd: &[u8], errpos: &[i32]) -> (res: Result<
    Vec<u8>,
    &'static str,
>)
    requires
        input@.len() <= i32::MAX,
        synd@.len() >= 1,
        synd@.len() + errpos@.len() + 2 <= usize::MAX,
        errpos@.len() + 2 <= i32::MAX,
        forall|i: int| 0 <= i < errpos@.len() ==> 0 <= #[trigger] errpos@[i] < input@.len(),
    ensures
        res is Ok <==> !errata_failed(coef_positions(input@.len() as int, errpos@)),
        (res matches Ok(z) ==> z@ == corrected_spec(input@, synd@, errpos@)),
        (res matches Err(m) ==> m@ == "failed to find error magnitude"@),
{
    let ghost gcoef = coef_positions(input@.len() as int, errpos@);
    let mut coef_pos: Vec<i32> = Vec::new();
    let mut i: usize = 0;
    while i < errpos.len()
        invariant
            i <= errpos@.len(),
            input@.len() <= i32::MAX,
            forall|t: int| 0 <= t < errpos@.len() ==> 0 <= #[trigger] errpos@[t] < input@.len(),
            coef_pos@ =~= gcoef.take(i as int),
            gcoef == coef_positions(input@.len() as int, errpos@),
        decreases errpos@.len() - i,
    {
        coef_pos.push(input.len() as i32 - 1 - errpos[i]);
        i = i + 1;
    }
    proof {
        assert(coef_pos@ =~= gcoef);
    }
    let errloc = find_errata_locator(coef_pos.as_slice());
    proof {
        lemma_errata_locator_len(coef_pos@, coef_pos@.len() as int);
    }
    let rev_synd = reversed(synd);
    let erreval_fwd = find_error_evaluator(
        rev_synd.as_slice(),
        errloc.as_slice(),
        errloc.len() as i32 - 1,
    );
    let erreval = reversed(erreval_fwd.as_slice());
    let ghost geval = errata_evaluator(synd@, gcoef);
    proof {
        assert(erreval@ == geval.reverse());
    }
    proof {
        assert forall|t: int| 0 <= t < gcoef.len() implies 0 <= #[trigger] gcoef[t]
            < input@.len() by {
            assert(0 <= errpos@[t] < input@.len());
        }
    }
    let mut x: Vec<u8> = Vec::new();
    let mut i: usize = 0;
    while i < coef_pos.len()
        invariant
            i <= coef_pos@.len(),
            coef_pos@ == gcoef,
            input@.len() <= i32::MAX,
            forall|t: int| 0 <= t < gcoef.len() ==> 0 <= #[trigger] gcoef[t] < input@.len(),
            x@.len() == i,
            forall|j: int| 0 <= j < i ==> x@[j] == errata_x(gcoef, j),
        decreases coef_pos@.len() - i,
    {
        let p = coef_pos[i];
        x.push(gf::pow(GEN, -(N as i32 - p)));
        i = i + 1;
    }
    let mut e: Vec<u8> = vec![0u8; input.len()];
    let mut i: usize = 0;
    while i < x.len()
        invariant
            i <= x@.len(),
            x@.len() == gcoef.len(),
            x@.len() == errpos@.len(),
            coef_pos@ == gcoef,
            gcoef == coef_positions(input@.len() as int, errpos@),
            erreval@ == geval.reverse(),
            geval == errata_evaluator(synd@, gcoef),
            forall|t: int| 0 <= t < errpos@.len() ==> 0 <= #[trigger] errpos@[t] < input@.len(),
            forall|j: int| 0 <= j < x@.len() ==> x@[j] == errata_x(gcoef, j),
            e@.len() == input@.len(),
            e@ == errata_e_rec(input@.len() as int, geval, gcoef, errpos@, i as int),
            forall|j: int| 0 <= j < i ==> errata_denominator(gcoef, j) != 0,
        decreases x@.len() - i,
    {
        let xi = x[i];
        proof {
            assert(xi == errata_x(gcoef, i as int));
            gf::lemma_gf_pow_nonzero(GEN, ((gcoef[i as int] - 255) % 255) as nat);
            assert(xi != 0);
        }
        let xi_inv = gf::inv(xi);
        let mut errloc_prime: u8 = 1;
        let mut j: usize = 0;
        while j < x.len()
            invariant
                j <= x@.len(),
                i < x@.len(),
                xi_inv == gf::gf_inv(errata_x(gcoef, i as int)),
                forall|t: int| 0 <= t < x@.len() ==> x@[t] == errata_x(gcoef, t),
                errloc_prime == denom_prod(x@, xi_inv, i as int, j as int),
            decreases x@.len() - j,
        {
            if j != i {
                errloc_prime = gf::mult(errloc_prime, 1 ^ gf::mult(xi_inv, x[j]));
            }
            j = j + 1;
        }
        proof {
            assert(x@ =~= Seq::new(gcoef.len(), |t: int| errata_x(gcoef, t)));
            assert(errloc_prime == errata_denominator(gcoef, i as int));
        }
        let er2 = reversed(erreval.as_slice());
        proof {
            assert(er2@ =~= geval);
        }
        let ev = gf::poly_eval(er2.as_slice(), xi_inv);
        let y = gf::mult(gf::pow(xi, 1 - FCR), ev);
        if errloc_prime == 0 {
            return Err("failed to find error magnitude");
        }
        e.set(errpos[i] as usize, gf::div(y, errloc_prime));
        i = i + 1;
    }
    let zult = gf::poly_add(input, e.as_slice());
    Ok(zult)
}

/// The decimal digit d as a character.
pub open spec fn digit_char(d: int) -> char {
    if d == 0 {
        '0'
    } else if d == 1 {
        '1'
    } else if d == 2 {
        '2'
    } else if d == 3 {
        '3'
    } else if d == 4 {
        '4'
    } else if d == 5 {
        '5'
    } else if d == 6 {
        '6'
    } else if d == 7 {
        '7'
    } else if d == 8 {
        '8'
    } else {
        '9'
    }
}

/// The decimal rendering of a number below one thousand, without leading
/// zeros.
pub open spec fn decimal_rep(n: int) -> Seq<char> {
    if n < 10 {
        seq![digit_char(n)]
    } else if n < 100 {
        seq![digit_char(n / 10), digit_char(n % 10)]
    } else {
        seq![digit_char(n / 100), digit_char((n / 10) % 10), digit_char(n % 10)]
    }
}

/// One decimal digit as a string slice.
fn digit_str(d: usize) -> (r: &'static str)
    requires
        d < 10,
    ensures
        r@ == seq![digit_char(d as int)],
{
    if d == 0 {
        proof {
            reveal_strlit("0");
        }
        "0"
    } else if d == 1 {
        proof {
            reveal_strlit("1");
        }
        "1"
    } else if d == 2 {
        proof {
            reveal_strlit("2");
        }
        "2"
    } else if d == 3 {
        proof {
            reveal_strlit("3");
        }
        "3"
    } else if d == 4 {
        proof {
            reveal_strlit("4");
        }
        "4"
    } else if d == 5 {
        proof {
            reveal_strlit("5");
        }
        "5"
    } else if d == 6 {
        proof {
            reveal_strlit("6");
        }
        "6"
    } else if d == 7 {
        proof {
            reveal_strlit("7");
        }
        "7"
    } else if d == 8 {
        proof {
            reveal_strlit("8");
        }
        "8"
    } else {
        proof {
            reveal_strlit("9");
        }
        "9"
    }
}

/// Render a number below one thousand in decimal.
fn decimal_string(n: usize) -> (s: String)
    requires
        n < 1000,
    ensures
        s@ == decimal_rep(n as int),
{
    let mut s = String::new();
    if n >= 100 {
        s.append(digit_str(n / 100));
    }
    if n >= 10 {
        s.append(digit_str((n / 10) % 10));
    }
    s.append(digit_str(n % 10));
    proof {
        assert(s@ =~= decimal_rep(n as int));
    }
    s
}

/// Disposition of the RS process.
#[derive(Debug, PartialEq, Clone)]
pub enum RSState {
    /// RS was performed and no errors were found.
    NoErrors,
    /// RS was performed and the provided number of errors were successfully
    /// corrected.
    Corrected(i32),
    /// RS was performed but the RS codeblock was not correctable, e.g.,
    /// there were more errors than could be corrected.
    Uncorrectable(String),
    NotPerformed,
}

/// The result of correcting one code block.
pub struct Block {
    /// Resulting state of the RS process for the contained RS message.
    pub state: RSState,
    /// The checked codeblock, still carrying the RS check symbols.
    pub message: Option<Vec<u8>>,
}

/// A mathematical stand-in for an RSState value: a variant tag, the
/// corrected count, and the reason text.
pub open spec fn state_rep(s: RSState) -> (int, int, Seq<char>) {
    match s {
        RSState::NoErrors => (0int, 0int, Seq::<char>::empty()),
        RSState::Corrected(n) => (1int, n as int, Seq::<char>::empty()),
        RSState::Uncorrectable(m) => (2int, 0int, m@),
        RSState::NotPerformed => (3int, 0int, Seq::<char>::empty()),
    }
}

/// A mathematical stand-in for a whole Block: its state and the bytes of
/// its message, if any.
pub open spec fn block_rep(b: Block) -> ((int, int, Seq<char>), Option<Seq<u8>>) {
    (
        state_rep(b.state),
        match b.message {
            Some(v) => Some(v@),
            None => None,
        },
    )
}

/// The reason reported when the locator finds more errors than the parity
/// can correct.
pub open spec fn too_many_errors_msg(nerr: int) -> Seq<char> {
    "too many errors to correct; expected no more than 16, found "@ + decimal_rep(nerr)
}

/// The reason reported when the root search finds a number of positions
/// different from the locator's degree.
pub open spec fn wrong_positions_msg(nerr: int, found: int) -> Seq<char> {
    "failed to generate error positions; expected "@ + decimal_rep(nerr) + " positions, got "@
        + decimal_rep(found)
}

/// The complete decode contract: what correcting one block returns, as a
/// function of the input bytes alone, stepping through the same stations as
/// the decoder: length validation, syndrome check, locator derivation,
/// degree threshold, root search, Forney correction, and the final
/// re-syndrome verification.
pub open spec fn decode_spec(input: Seq<u8>) -> ((int, int, Seq<char>), Option<Seq<u8>>) {
    if input.len() != 255 {
        ((2int, 0int, "invalid input"@), None::<Seq<u8>>)
    } else {
        let conv = dual_basis::conv_seq(input);
        let synd = syndromes_spec(conv, PARITY_LEN as nat);
        if all_zero(synd) {
            ((0int, 0int, Seq::<char>::empty()), Some(input))
        } else {
            let fsynd = forney_spec(synd, Seq::<i32>::empty(), 255);
            let errloc = error_locator_spec(fsynd, PARITY_LEN as int);
            let nerr = errloc.len() - 1;
            if nerr * 2 > PARITY_LEN {
                ((2int, 0int, too_many_errors_msg(nerr)), None::<Seq<u8>>)
            } else {
                let errpos = error_positions_spec(errloc.reverse());
                if errpos.len() != nerr {
                    (
                        (2int, 0int, wrong_positions_msg(nerr, errpos.len() as int)),
                        None::<Seq<u8>>,
                    )
                } else if errata_failed(coef_positions(255, errpos)) {
                    ((2int, 0int, "failed to find error magnitude"@), None::<Seq<u8>>)
                } else {
                    let corrected = corrected_spec(conv, synd, errpos);
                    if !all_zero(syndromes_spec(corrected, PARITY_LEN as nat)) {
                        ((2int, 0int, "failed to correct all errors"@), None::<Seq<u8>>)
                    } else {
                        ((1int, nerr, Seq::<char>::empty()), Some(dual_basis::dual_seq(corrected)))
                    }
                }
            }
        }
    }
}

/// The root search over n candidates returns at most n positions, all of
/// them byte offsets inside the block.
pub proof fn lemma_error_positions_wf(errloc: Seq<u8>, n: int)
    requires
        0 <= n <= 255,
    ensures
        error_positions_rec(errloc, n).len() <= n,
        forall|i: int|
            0 <= i < error_positions_rec(errloc, n).len() ==> 0 <= #[trigger] error_positions_rec(
                errloc,
                n,
            )[i] <= 254,
    decreases n,
{
    if n > 0 {
        lemma_error_positions_wf(errloc, n - 1);
    }
}

/// Correct a Reed-Solomon 255 byte code block, where the last PARITY_LEN
/// bytes are the parity/check bytes. The code block is assumed to be in
/// dual-basis representation.
///
/// The returned Block::message contains the corrected message iff the state
/// is RSState::Corrected, and the unchanged input iff the state is
/// RSState::NoErrors; otherwise it is None.
///
/// The state is RSState::Uncorrectable if there are more errors than can be
/// corrected or if an algorithm failure occurs. The whole outcome is pinned
/// by decode_spec, a function of the input bytes alone.
pub fn correct_message(input: &[u8]) -> (block: Block)
    ensures
        block_rep(block) == decode_spec(input@),
{
    let input_vec: Vec<u8> = vstd::slice::slice_to_vec(input);
    if input_vec.len() != N as usize {
        return Block {
            state: RSState::Uncorrectable(String::from_str("invalid input")),
            message: None,
        };
    }
    let out = dual_basis::to_conv(input_vec.as_slice());
    let synd = calc_syndromes(out.as_slice(), PARITY_LEN);
    if !max_nonzero(synd.as_slice()) {
        return Block { state: RSState::NoErrors, message: Some(input_vec) };
    }
    let era: Vec<i32> = Vec::new();
    proof {
        assert(era@ =~= Seq::<i32>::empty());
    }
    let fsynd = forney_syndromes(synd.as_slice(), era.as_slice(), out.len() as i32);
    proof {
        assert(fsynd@ == synd@.skip(1));
    }
    let errloc = find_error_locator(fsynd.as_slice(), PARITY_LEN);
    proof {
        lemma_error_locator_wf(fsynd@, PARITY_LEN as int);
    }
    let num_errs = errloc.len() - 1;
    if num_errs * 2 > PARITY_LEN {
        let mut reason = String::from_str(
            "too many errors to correct; expected no more than 16, found ",
        );
        reason.append(decimal_string(num_errs).as_str());
        return Block { state: RSState::Uncorrectable(reason), message: None };
    }
    let errloc_rev = reversed(errloc.as_slice());
    let errpos = find_errors(errloc_rev.as_slice());
    proof {
        lemma_error_positions_wf(errloc_rev@, 255);
    }
    if errpos.len() != num_errs {
        let mut reason = String::from_str("failed to generate error positions; expected ");
        reason.append(decimal_string(num_errs).as_str());
        reason.append(" positions, got ");
        reason.append(decimal_string(errpos.len()).as_str());
        return Block { state: RSState::Uncorrectable(reason), message: None };
    }
    let out = match correct_errata(out.as_slice(), synd.as_slice(), errpos.as_slice()) {
        Err(err) => {
            return Block { state: RSState::Uncorrectable(String::from_str(err)), message: None };
        },
        Ok(block) => block,
    };
    let synd2 = calc_syndromes(out.as_slice(), PARITY_LEN);
    if max_nonzero(synd2.as_slice()) {
        return Block {
            state: RSState::Uncorrectable(String::from_str("failed to correct all errors")),
            message: None,
        };
    }
    Block {
        state: RSState::Corrected(errloc.len() as i32 - 1),
        message: Some(dual_basis::to_dual(out.as_slice())),
    }
}

/// Return true if the input code block contains 1 or more errors: the
/// block's syndromes, taken over its conventional-basis form, are not all
/// zero.
pub fn has_errors(msg: &[u8]) -> (r: bool)
    ensures
        r == !all_zero(syndromes_spec(dual_basis::conv_seq(msg@), PARITY_LEN as nat)),
{
    let conv = dual_basis::to_conv(msg);
    let synd = calc_syndromes(conv.as_slice(), PARITY_LEN);
    max_nonzero(synd.as_slice())
}

/// A 255-byte block whose syndromes are all zero decodes to the no-errors
/// outcome, with the message equal to the dual-basis input unchanged.
pub proof fn lemma_zero_syndrome_decode(input: Seq<u8>)
    requires
        input.len() == 255,
        all_zero(syndromes_spec(dual_basis::conv_seq(input), PARITY_LEN as nat)),
    ensures
        decode_spec(input) == ((0int, 0int, Seq::<char>::empty()), Some(input)),
{
}

/// A corrected outcome never reports more than 16 repaired symbols: the
/// decoder refuses any locator whose degree doubled exceeds the parity
/// length.
pub proof fn lemma_corrected_count_bounded(input: Seq<u8>)
    ensures
        decode_spec(input).0.0 == 1 ==> 0 <= decode_spec(input).0.1 <= 16,
{
    if input.len() == 255 {
        let conv = dual_basis::conv_seq(input);
        let synd = syndromes_spec(conv, PARITY_LEN as nat);
        if !all_zero(synd) {
            let fsynd = forney_spec(synd, Seq::<i32>::empty(), 255);
            lemma_error_locator_wf(fsynd, PARITY_LEN as int);
        }
    }
}

/// A corrected outcome always carries a message, and that message is a
/// valid codeword: the syndromes of its conventional-basis form are all
/// zero. The final re-syndrome verification can never be skipped.
pub proof fn lemma_corrected_is_codeword(input: Seq<u8>)
    ensures
        decode_spec(input).0.0 == 1 ==> decode_spec(input).1 is Some,
        decode_spec(input).0.0 == 1 ==> all_zero(
            syndromes_spec(dual_basis::conv_seq(decode_spec(input).1->0), PARITY_LEN as nat),
        ),
{
    if decode_spec(input).0.0 == 1 {
        let conv = dual_basis::conv_seq(input);
        let synd = syndromes_spec(conv, PARITY_LEN as nat);
        let fsynd = forney_spec(synd, Seq::<i32>::empty(), 255);
        let errloc = error_locator_spec(fsynd, PARITY_LEN as int);
        let errpos = error_positions_spec(errloc.reverse());
        let corrected = corrected_spec(conv, synd, errpos);
        dual_basis::lemma_seq_roundtrip(corrected);
        assert(decode_spec(input).1->0 == dual_basis::dual_seq(corrected));
    }
}

/// Decoding is deterministic: two blocks that both satisfy the decode
/// contract for the same input agree in state and message alike.
pub proof fn lemma_decode_deterministic(input: Seq<u8>, b1: Block, b2: Block)
    requires
        block_rep(b1) == decode_spec(input),
        block_rep(b2) == decode_spec(input),
    ensures
        block_rep(b1) == block_rep(b2),
{
}

} // verus!
