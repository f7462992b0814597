//! Arithmetic in GF(256), the field of the CCSDS Reed-Solomon code.
//!
//! A byte stands for a polynomial over GF(2) of degree at most 7; sums are
//! bitwise XOR, and products are carry-less multiplication followed by
//! reduction modulo the fixed primitive polynomial x^8 + x^7 + x^2 + x + 1
//! (0x187). On top of the element operations sit the polynomial operations
//! (evaluate, add, multiply, scale, long division) that the decoder uses,
//! where a polynomial is a sequence of field elements, most significant
//! coefficient first.
use vstd::prelude::*;

verus! {

/// Carry-less product of two bytes: the polynomial product over GF(2),
/// at most 15 bits wide.
pub open spec fn clmul(a: u8, b: u8) -> u16 {
    (if b & 0x01 != 0 { a as u16 } else { 0 })
        ^ (if b & 0x02 != 0 { (a as u16) << 1 } else { 0 })
        ^ (if b & 0x04 != 0 { (a as u16) << 2 } else { 0 })
        ^ (if b & 0x08 != 0 { (a as u16) << 3 } else { 0 })
        ^ (if b & 0x10 != 0 { (a as u16) << 4 } else { 0 })
        ^ (if b & 0x20 != 0 { (a as u16) << 5 } else { 0 })
        ^ (if b & 0x40 != 0 { (a as u16) << 6 } else { 0 })
        ^ (if b & 0x80 != 0 { (a as u16) << 7 } else { 0 })
}

/// Reduction of a 15-bit carry-less product modulo x^8 + x^7 + x^2 + x + 1:
/// each set bit above position 7 is folded away by subtracting (XORing) the
/// matching shift of the primitive polynomial 0x187.
pub open spec fn gf_reduce(p: u16) -> u8 {
    let p = if p & 0x4000 != 0 { p ^ (0x187u16 << 6) } else { p };
    let p = if p & 0x2000 != 0 { p ^ (0x187u16 << 5) } else { p };
    let p = if p & 0x1000 != 0 { p ^ (0x187u16 << 4) } else { p };
    let p = if p & 0x0800 != 0 { p ^ (0x187u16 << 3) } else { p };
    let p = if p & 0x0400 != 0 { p ^ (0x187u16 << 2) } else { p };
    let p = if p & 0x0200 != 0 { p ^ (0x187u16 << 1) } else { p };
    let p = if p & 0x0100 != 0 { p ^ 0x187u16 } else { p };
    p as u8
}

/// The product of two field elements.
pub open spec fn gf_mul(a: u8, b: u8) -> u8 {
    gf_reduce(clmul(a, b))
}

/// GF(256) is an integral domain: a product of nonzero elements is nonzero.
pub proof fn lemma_gf_mul_nonzero(a: u8, b: u8)
    requires
        a != 0,
        b != 0,
    ensures
        gf_mul(a, b) != 0,
{
    assert(gf_reduce(clmul(a, b)) != 0) by (bit_vector)
        requires
            a != 0 && b != 0,
    ;
}

/// Zero annihilates a product, on either side.
pub proof fn lemma_mul_zero(x: u8)
    ensures
        gf_mul(0, x) == 0,
        gf_mul(x, 0) == 0,
{
    assert(gf_reduce(clmul(0, x)) == 0 && gf_reduce(clmul(x, 0)) == 0) by (bit_vector);
}

/// XOR facts the solver does not export on its own: zero is the identity.
pub proof fn lemma_xor_zero(x: u8)
    ensures
        x ^ 0 == x,
        0 ^ x == x,
{
    assert(x ^ 0 == x && 0 ^ x == x) by (bit_vector);
}

/// The element a raised to the natural power n, by repeated multiplication.
pub open spec fn gf_pow(a: u8, n: nat) -> u8
    decreases n,
{
    if n == 0 {
        1
    } else {
        gf_mul(a, gf_pow(a, (n - 1) as nat))
    }
}

/// A power of a nonzero element is nonzero.
pub proof fn lemma_gf_pow_nonzero(a: u8, n: nat)
    requires
        a != 0,
    ensures
        gf_pow(a, n) != 0,
    decreases n,
{
    if n > 0 {
        lemma_gf_pow_nonzero(a, (n - 1) as nat);
        lemma_gf_mul_nonzero(a, gf_pow(a, (n - 1) as nat));
    }
}

/// The multiplicative inverse of a nonzero element: the field's
/// multiplicative group has order 255, so a^254 inverts a.
pub open spec fn gf_inv(a: u8) -> u8 {
    gf_pow(a, 254)
}

/// The quotient of two field elements.
pub open spec fn gf_div(a: u8, b: u8) -> u8 {
    gf_mul(a, gf_inv(b))
}

/// Raise a to the (possibly negative) exponent e: the exponent acts modulo
/// 255, the multiplicative order of the field.
pub fn pow(a: u8, e: i32) -> (r: u8)
    ensures
        r == gf_pow(a, (e as int % 255) as nat),
{
    // Shift by a multiple of 255 at least 2^31 so the dividend is never
    // negative; the remainder modulo 255 is unchanged.
    let n: u64 = (((e as i64) + 2147483775) as u64) % 255;
    proof {
        vstd::arithmetic::div_mod::lemma_mod_multiples_vanish(8421505, e as int, 255);
        assert(255 * 8421505 + e as int == (e as int) + 2147483775);
    }
    let mut r: u8 = 1;
    let mut i: u64 = 0;
    while i < n
        invariant
            i <= n < 255,
            r == gf_pow(a, i as nat),
        decreases n - i,
    {
        r = mult(a, r);
        i = i + 1;
    }
    r
}

/// The multiplicative inverse of a nonzero field element.
pub fn inv(a: u8) -> (r: u8)
    requires
        a != 0,
    ensures
        r == gf_inv(a),
{
    pow(a, 254)
}

/// Divide a by the nonzero field element b.
pub fn div(a: u8, b: u8) -> (r: u8)
    requires
        b != 0,
    ensures
        r == gf_div(a, b),
{
    let bi = inv(b);
    mult(a, bi)
}

/// Multiply two field elements.
pub fn mult(a: u8, b: u8) -> (r: u8)
    ensures
        r == gf_mul(a, b),
{
    let a16 = a as u16;
    let mut p: u16 = if b & 0x01 != 0 { a16 } else { 0 };
    p = p ^ (if b & 0x02 != 0 { a16 << 1 } else { 0 });
    p = p ^ (if b & 0x04 != 0 { a16 << 2 } else { 0 });
    p = p ^ (if b & 0x08 != 0 { a16 << 3 } else { 0 });
    p = p ^ (if b & 0x10 != 0 { a16 << 4 } else { 0 });
    p = p ^ (if b & 0x20 != 0 { a16 << 5 } else { 0 });
    p = p ^ (if b & 0x40 != 0 { a16 << 6 } else { 0 });
    p = p ^ (if b & 0x80 != 0 { a16 << 7 } else { 0 });
    if p & 0x4000 != 0 {
        p = p ^ (0x187u16 << 6);
    }
    if p & 0x2000 != 0 {
        p = p ^ (0x187u16 << 5);
    }
    if p & 0x1000 != 0 {
        p = p ^ (0x187u16 << 4);
    }
    if p & 0x0800 != 0 {
        p = p ^ (0x187u16 << 3);
    }
    if p & 0x0400 != 0 {
        p = p ^ (0x187u16 << 2);
    }
    if p & 0x0200 != 0 {
        p = p ^ (0x187u16 << 1);
    }
    if p & 0x0100 != 0 {
        p = p ^ 0x187u16;
    }
    p as u8
}

/// Horner evaluation of a polynomial (most significant coefficient first)
/// at the field element x.
pub open spec fn poly_eval_spec(p: Seq<u8>, x: u8) -> u8
    decreases p.len(),
{
    if p.len() == 0 {
        0
    } else {
        gf_mul(poly_eval_spec(p.drop_last(), x), x) ^ p.last()
    }
}

/// Evaluate the polynomial p at x by Horner's method.
pub fn poly_eval(p: &[u8], x: u8) -> (r: u8)
    ensures
        r == poly_eval_spec(p@, x),
{
    let mut r: u8 = 0;
    let mut i: usize = 0;
    while i < p.len()
        invariant
            i <= p@.len(),
            r == poly_eval_spec(p@.take(i as int), x),
        decreases p@.len() - i,
    {
        r = mult(r, x) ^ p[i];
        proof {
            assert(p@.take(i + 1 as int).drop_last() =~= p@.take(i as int));
            assert(p@.take(i + 1 as int).last() == p@[i as int]);
        }
        i = i + 1;
    }
    proof {
        assert(p@.take(p@.len() as int) =~= p@);
    }
    r
}

/// The coefficient that p contributes at position i of a sum of length len,
/// once p is right-aligned and padded with leading zeros.
pub open spec fn pad_coef(p: Seq<u8>, len: int, i: int) -> u8 {
    if i >= len - p.len() {
        p[i - (len - p.len())]
    } else {
        0
    }
}

/// The sum of two polynomials: coefficient-wise XOR after right-aligning
/// the shorter operand.
pub open spec fn poly_add_spec(p: Seq<u8>, q: Seq<u8>) -> Seq<u8> {
    let len = if p.len() >= q.len() {
        p.len() as int
    } else {
        q.len() as int
    };
    Seq::new(len as nat, |i: int| pad_coef(p, len, i) ^ pad_coef(q, len, i))
}

/// Add two polynomials over the field.
pub fn poly_add(p: &[u8], q: &[u8]) -> (r: Vec<u8>)
    ensures
        r@ == poly_add_spec(p@, q@),
{
    let n: usize = if p.len() > q.len() {
        p.len()
    } else {
        q.len()
    };
    let mut r: Vec<u8> = vec![0u8; n];
    let off_p = n - p.len();
    let mut i: usize = 0;
    while i < p.len()
        invariant
            i <= p@.len(),
            r@.len() == n,
            off_p == n - p@.len(),
            n >= p@.len(),
            forall|k: int| 0 <= k < off_p + i ==> r@[k] == pad_coef(p@, n as int, k),
            forall|k: int| off_p + i <= k < n ==> r@[k] == 0,
        decreases p@.len() - i,
    {
        r.set(off_p + i, p[i]);
        i = i + 1;
    }
    let off_q = n - q.len();
    let mut j: usize = 0;
    while j < q.len()
        invariant
            j <= q@.len(),
            r@.len() == n,
            off_q == n - q@.len(),
            n >= q@.len(),
            forall|k: int|
                off_q <= k < off_q + j ==> r@[k] == pad_coef(p@, n as int, k) ^ pad_coef(
                    q@,
                    n as int,
                    k,
                ),
            forall|k: int|
                (0 <= k < off_q || off_q + j <= k < n) ==> r@[k] == pad_coef(p@, n as int, k),
        decreases q@.len() - j,
    {
        let idx = off_q + j;
        r.set(idx, r[idx] ^ q[j]);
        j = j + 1;
    }
    proof {
        assert forall|k: int| 0 <= k < off_q implies r@[k] == pad_coef(p@, n as int, k) ^ pad_coef(
            q@,
            n as int,
            k,
        ) by {
            lemma_xor_zero(pad_coef(p@, n as int, k));
        }
        assert(r@ =~= poly_add_spec(p@, q@));
    }
    r
}

/// Every coefficient of p multiplied by the scalar k.
pub open spec fn poly_scale_spec(p: Seq<u8>, k: u8) -> Seq<u8> {
    Seq::new(p.len(), |i: int| gf_mul(p[i], k))
}

/// Multiply every coefficient of p by the scalar k.
pub fn poly_scale(p: &[u8], k: u8) -> (r: Vec<u8>)
    ensures
        r@ == poly_scale_spec(p@, k),
{
    let mut r: Vec<u8> = Vec::new();
    let mut i: usize = 0;
    while i < p.len()
        invariant
            i <= p@.len(),
            r@ =~= poly_scale_spec(p@, k).take(i as int),
        decreases p@.len() - i,
    {
        r.push(mult(p[i], k));
        i = i + 1;
    }
    proof {
        assert(r@ =~= poly_scale_spec(p@, k));
    }
    r
}

/// The partial convolution sum at output position k: the XOR of
/// p[k - j'] * q[j'] over the first j positions j' of q that land on k.
pub open spec fn conv_coef(p: Seq<u8>, q: Seq<u8>, k: int, j: int) -> u8
    decreases j,
{
    if j <= 0 {
        0
    } else {
        conv_coef(p, q, k, j - 1) ^ (if 0 <= k - (j - 1) < p.len() {
            gf_mul(p[k - (j - 1)], q[j - 1])
        } else {
            0
        })
    }
}

/// The product of two polynomials: the full convolution of their
/// coefficient sequences.
pub open spec fn poly_mul_spec(p: Seq<u8>, q: Seq<u8>) -> Seq<u8> {
    Seq::new((p.len() + q.len() - 1) as nat, |k: int| conv_coef(p, q, k, q.len() as int))
}

/// Multiply two polynomials over the field.
pub fn poly_mult(p: &[u8], q: &[u8]) -> (r: Vec<u8>)
    requires
        p@.len() + q@.len() >= 1,
        p@.len() + q@.len() <= usize::MAX,
    ensures
        r@ == poly_mul_spec(p@, q@),
{
    let n = p.len() + q.len() - 1;
    let mut r: Vec<u8> = vec![0u8; n];
    proof {
        assert forall|k: int| 0 <= k < n implies r@[k] == conv_coef(p@, q@, k, 0) by {}
    }
    let mut j: usize = 0;
    while j < q.len()
        invariant
            j <= q@.len(),
            r@.len() == n,
            n == p@.len() + q@.len() - 1,
            forall|k: int| 0 <= k < n ==> r@[k] == conv_coef(p@, q@, k, j as int),
        decreases q@.len() - j,
    {
        let ghost before = r@;
        let mut i: usize = 0;
        while i < p.len()
            invariant
                i <= p@.len(),
                j < q@.len(),
                r@.len() == n,
                n == p@.len() + q@.len() - 1,
                forall|k: int|
                    0 <= k < n ==> r@[k] == (if j <= k < i + j {
                        before[k] ^ gf_mul(p@[k - j], q@[j as int])
                    } else {
                        before[k]
                    }),
            decreases p@.len() - i,
        {
            let idx = i + j;
            r.set(idx, r[idx] ^ mult(p[i], q[j]));
            i = i + 1;
        }
        proof {
            assert forall|k: int| 0 <= k < n implies r@[k] == conv_coef(
                p@,
                q@,
                k,
                j + 1 as int,
            ) by {
                assert(before[k] == conv_coef(p@, q@, k, j as int));
                if !(0 <= k - (j as int) < p@.len()) {
                    lemma_xor_zero(conv_coef(p@, q@, k, j as int));
                }
            }
        }
        j = j + 1;
    }
    r
}

/// One step of synthetic long division: the quotient coefficient at
/// position i is the leading remainder coefficient divided by the
/// divisor's leading coefficient, and that multiple of the divisor is
/// subtracted from the positions it covers.
pub open spec fn synth_step(out: Seq<u8>, d: Seq<u8>, i: int) -> Seq<u8> {
    let coef = gf_div(out[i], d[0]);
    Seq::new(
        out.len(),
        |k: int|
            if k == i {
                coef
            } else if i < k < i + d.len() {
                out[k] ^ gf_mul(d[k - i], coef)
            } else {
                out[k]
            },
    )
}

/// The working sequence of polynomial long division after the given number
/// of steps, starting from the dividend.
pub open spec fn synth_div(p: Seq<u8>, d: Seq<u8>, steps: int) -> Seq<u8>
    decreases steps,
{
    if steps <= 0 {
        p
    } else {
        synth_step(synth_div(p, d, steps - 1), d, steps - 1)
    }
}

/// The quotient of polynomial long division: the first
/// p.len() - (d.len() - 1) positions of the finished working sequence.
pub open spec fn poly_div_quot(p: Seq<u8>, d: Seq<u8>) -> Seq<u8> {
    synth_div(p, d, p.len() - (d.len() - 1)).take(p.len() - (d.len() - 1))
}

/// The remainder of polynomial long division: the last d.len() - 1
/// positions of the finished working sequence.
pub open spec fn poly_div_rem(p: Seq<u8>, d: Seq<u8>) -> Seq<u8> {
    synth_div(p, d, p.len() - (d.len() - 1)).skip(p.len() - (d.len() - 1))
}

/// The working sequence keeps the dividend's length.
pub proof fn lemma_synth_div_len(p: Seq<u8>, d: Seq<u8>, steps: int)
    ensures
        synth_div(p, d, steps).len() == p.len(),
    decreases steps,
{
    if steps > 0 {
        lemma_synth_div_len(p, d, steps - 1);
    }
}

/// Divide the polynomial p by the divisor d, whose leading coefficient must
/// be nonzero; returns the quotient and the remainder, the remainder kept at
/// the fixed length d.len() - 1.
pub fn poly_div(p: &[u8], d: &[u8]) -> (qr: (Vec<u8>, Vec<u8>))
    requires
        d@.len() >= 1,
        d@[0] != 0,
        p@.len() + 1 >= d@.len(),
    ensures
        qr.0@ == poly_div_quot(p@, d@),
        qr.1@ == poly_div_rem(p@, d@),
{
    let mut out: Vec<u8> = vstd::slice::slice_to_vec(p);
    let steps = p.len() - (d.len() - 1);
    let mut i: usize = 0;
    while i < steps
        invariant
            i <= steps,
            steps == p@.len() - (d@.len() - 1),
            d@.len() >= 1,
            d@[0] != 0,
            out@ == synth_div(p@, d@, i as int),
            out@.len() == p@.len(),
        decreases steps - i,
    {
        let ghost prev = out@;
        let m = out.len();
        let coef = div(out[i], d[0]);
        let mut j: usize = 1;
        while j < d.len()
            invariant
                1 <= j <= d@.len(),
                i < steps,
                steps == p@.len() - (d@.len() - 1),
                i + j <= m,
                m == p@.len(),
                coef == gf_div(prev[i as int], d@[0]),
                out@.len() == p@.len(),
                forall|k: int|
                    0 <= k < p@.len() ==> out@[k] == (if i < k < i + j {
                        prev[k] ^ gf_mul(d@[k - i], coef)
                    } else {
                        prev[k]
                    }),
            decreases d@.len() - j,
        {
            let idx = i + j;
            out.set(idx, out[idx] ^ mult(d[j], coef));
            j = j + 1;
        }
        out.set(i, coef);
        proof {
            assert(out@ =~= synth_step(prev, d@, i as int));
        }
        i = i + 1;
    }
    proof {
        lemma_synth_div_len(p@, d@, steps as int);
    }
    let rem = out.split_off(steps);
    proof {
        assert(out@ =~= poly_div_quot(p@, d@));
        assert(rem@ =~= poly_div_rem(p@, d@));
    }
    (out, rem)
}

} // verus!
