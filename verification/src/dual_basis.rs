//! Conversion between the CCSDS dual-basis and conventional-basis symbol
//! representations.
//!
//! Flight encoders emit Reed-Solomon symbols in the dual basis; all field
//! arithmetic in the decoder works on the conventional basis. Each direction
//! is the fixed byte substitution of CCSDS 131.0-B Appendix E. The
//! substitution is linear over GF(2), so a byte's image is the XOR of the
//! images of its set bits; the two maps are mutually inverse permutations of
//! the byte space.
use vstd::prelude::*;

verus! {

/// The conventional-basis image of a dual-basis byte: the XOR of the
/// Appendix E images of its set bits.
pub open spec fn conv_of_dual(b: u8) -> u8 {
    (if b & 0x01 != 0 { 0xccu8 } else { 0 })
        ^ (if b & 0x02 != 0 { 0xacu8 } else { 0 })
        ^ (if b & 0x04 != 0 { 0x79u8 } else { 0 })
        ^ (if b & 0x08 != 0 { 0xf0u8 } else { 0 })
        ^ (if b & 0x10 != 0 { 0xfdu8 } else { 0 })
        ^ (if b & 0x20 != 0 { 0x2eu8 } else { 0 })
        ^ (if b & 0x40 != 0 { 0x42u8 } else { 0 })
        ^ (if b & 0x80 != 0 { 0xc5u8 } else { 0 })
}

/// The dual-basis image of a conventional-basis byte: the inverse
/// substitution, likewise linear over GF(2).
pub open spec fn dual_of_conv(b: u8) -> u8 {
    (if b & 0x01 != 0 { 0x7bu8 } else { 0 })
        ^ (if b & 0x02 != 0 { 0xafu8 } else { 0 })
        ^ (if b & 0x04 != 0 { 0x99u8 } else { 0 })
        ^ (if b & 0x08 != 0 { 0xfau8 } else { 0 })
        ^ (if b & 0x10 != 0 { 0x86u8 } else { 0 })
        ^ (if b & 0x20 != 0 { 0xecu8 } else { 0 })
        ^ (if b & 0x40 != 0 { 0xefu8 } else { 0 })
        ^ (if b & 0x80 != 0 { 0x8du8 } else { 0 })
}

/// The element-wise conventional-basis image of a whole sequence.
pub open spec fn conv_seq(s: Seq<u8>) -> Seq<u8> {
    Seq::new(s.len(), |i: int| conv_of_dual(s[i]))
}

/// The element-wise dual-basis image of a whole sequence.
pub open spec fn dual_seq(s: Seq<u8>) -> Seq<u8> {
    Seq::new(s.len(), |i: int| dual_of_conv(s[i]))
}

/// The two substitutions are mutually inverse permutations of the byte space.
pub proof fn lemma_basis_bijection(b: u8)
    ensures
        dual_of_conv(conv_of_dual(b)) == b,
        conv_of_dual(dual_of_conv(b)) == b,
{
    assert(dual_of_conv(conv_of_dual(b)) == b) by (bit_vector);
    assert(conv_of_dual(dual_of_conv(b)) == b) by (bit_vector);
}

/// Converting a whole sequence to the other basis and back returns it
/// unchanged, in either order.
pub proof fn lemma_seq_roundtrip(s: Seq<u8>)
    ensures
        dual_seq(conv_seq(s)) == s,
        conv_seq(dual_seq(s)) == s,
{
    assert forall|i: int| 0 <= i < s.len() implies dual_seq(conv_seq(s))[i] == s[i] by {
        lemma_basis_bijection(s[i]);
    }
    assert forall|i: int| 0 <= i < s.len() implies conv_seq(dual_seq(s))[i] == s[i] by {
        lemma_basis_bijection(s[i]);
    }
    assert(dual_seq(conv_seq(s)) =~= s);
    assert(conv_seq(dual_seq(s)) =~= s);
}

/// Apply the dual-to-conventional substitution to one byte.
fn conv_byte(b: u8) -> (r: u8)
    ensures
        r == conv_of_dual(b),
{
    let mut r: u8 = if b & 0x01 != 0 { 0xcc } else { 0 };
    r = r ^ (if b & 0x02 != 0 { 0xacu8 } else { 0 });
    r = r ^ (if b & 0x04 != 0 { 0x79u8 } else { 0 });
    r = r ^ (if b & 0x08 != 0 { 0xf0u8 } else { 0 });
    r = r ^ (if b & 0x10 != 0 { 0xfdu8 } else { 0 });
    r = r ^ (if b & 0x20 != 0 { 0x2eu8 } else { 0 });
    r = r ^ (if b & 0x40 != 0 { 0x42u8 } else { 0 });
    r = r ^ (if b & 0x80 != 0 { 0xc5u8 } else { 0 });
    r
}

/// Apply the conventional-to-dual substitution to one byte.
fn dual_byte(b: u8) -> (r: u8)
    ensures
        r == dual_of_conv(b),
{
    let mut r: u8 = if b & 0x01 != 0 { 0x7b } else { 0 };
    r = r ^ (if b & 0x02 != 0 { 0xafu8 } else { 0 });
    r = r ^ (if b & 0x04 != 0 { 0x99u8 } else { 0 });
    r = r ^ (if b & 0x08 != 0 { 0xfau8 } else { 0 });
    r = r ^ (if b & 0x10 != 0 { 0x86u8 } else { 0 });
    r = r ^ (if b & 0x20 != 0 { 0xecu8 } else { 0 });
    r = r ^ (if b & 0x40 != 0 { 0xefu8 } else { 0 });
    r = r ^ (if b & 0x80 != 0 { 0x8du8 } else { 0 });
    r
}

/// Convert data to conventional format.
pub fn to_conv(msg: &[u8]) -> (out: Vec<u8>)
    ensures
        out@ == conv_seq(msg@),
{
    let mut out: Vec<u8> = Vec::new();
    let mut i: usize = 0;
    while i < msg.len()
        invariant
            i <= msg@.len(),
            out@ =~= conv_seq(msg@).take(i as int),
        decreases msg@.len() - i,
    {
        out.push(conv_byte(msg[i]));
        i = i + 1;
    }
    assert(out@ =~= conv_seq(msg@));
    out
}

/// Convert data to dual-basis format.
pub fn to_dual(msg: &[u8]) -> (out: Vec<u8>)
    ensures
        out@ == dual_seq(msg@),
{
    let mut out: Vec<u8> = Vec::new();
    let mut i: usize = 0;
    while i < msg.len()
        invariant
            i <= msg@.len(),
            out@ =~= dual_seq(msg@).take(i as int),
        decreases msg@.len() - i,
    {
        out.push(dual_byte(msg[i]));
        i = i + 1;
    }
    assert(out@ =~= dual_seq(msg@));
    out
}

} // verus!
