//! Base-256 positional model of fixed-width binary values.
//!
//! A `w`-byte field holds a number below `pow256(w)`. Its little-endian
//! representation lists the base-256 digits least significant first; the
//! big-endian representation is the reverse. Signed values are carried as
//! their two's-complement image, an unsigned number of the same width.

use vstd::prelude::*;

verus! {

/// 256 to the power `w`: the number of distinct values of a `w`-byte field.
pub open spec fn pow256(w: nat) -> nat
    decreases w,
{
    if w == 0 {
        1
    } else {
        256 * pow256((w - 1) as nat)
    }
}

/// The `w` low-order base-256 digits of `v`, least significant first:
/// the little-endian byte representation of `v % pow256(w)`.
pub open spec fn le_bytes_of(v: nat, w: nat) -> Seq<u8>
    decreases w,
{
    if w == 0 {
        Seq::empty()
    } else {
        seq![(v % 256) as u8] + le_bytes_of(v / 256, (w - 1) as nat)
    }
}

/// The number whose little-endian base-256 digits are `s`.
pub open spec fn le_val_of(s: Seq<u8>) -> nat
    decreases s.len(),
{
    if s.len() == 0 {
        0nat
    } else {
        s[0] as nat + 256 * le_val_of(s.skip(1))
    }
}

/// `s` with `rep` overwriting the bytes at `pos .. pos + rep.len()`.
pub open spec fn spliced(s: Seq<u8>, pos: int, rep: Seq<u8>) -> Seq<u8> {
    s.take(pos) + rep + s.skip(pos + rep.len())
}

/// The two's-complement image of a signed value `v` in a `w`-byte field.
pub open spec fn unsigned_of(v: int, w: nat) -> nat {
    if v >= 0 {
        v as nat
    } else {
        (v + pow256(w)) as nat
    }
}

/// The signed value whose two's-complement image in a `w`-byte field is `u`.
pub open spec fn signed_of(u: nat, w: nat) -> int {
    if 2 * u < pow256(w) {
        u as int
    } else {
        u - pow256(w)
    }
}

pub proof fn lemma_pow256_values()
    ensures
        pow256(1) == 0x100,
        pow256(2) == 0x1_0000,
        pow256(4) == 0x1_0000_0000,
        pow256(8) == 0x1_0000_0000_0000_0000,
        pow256(16) == 0x1_0000_0000_0000_0000_0000_0000_0000_0000,
{
    reveal_with_fuel(pow256, 17);
}

pub proof fn lemma_pow256_mono(a: nat, b: nat)
    requires
        a <= b,
    ensures
        pow256(a) <= pow256(b),
    decreases b,
{
    if a < b {
        lemma_pow256_mono(a, (b - 1) as nat);
    }
}

pub proof fn lemma_le_bytes_len(v: nat, w: nat)
    ensures
        le_bytes_of(v, w).len() == w,
    decreases w,
{
    if w > 0 {
        lemma_le_bytes_len(v / 256, (w - 1) as nat);
    }
}

pub proof fn lemma_le_val_bound(s: Seq<u8>)
    ensures
        le_val_of(s) < pow256(s.len()),
    decreases s.len(),
{
    if s.len() > 0 {
        lemma_le_val_bound(s.skip(1));
    }
}

/// Decoding inverts encoding: the value of the digits of `v` is `v`.
pub proof fn lemma_le_val_of_bytes(v: nat, w: nat)
    requires
        v < pow256(w),
    ensures
        le_val_of(le_bytes_of(v, w)) == v,
    decreases w,
{
    if w > 0 {
        lemma_le_bytes_len(v / 256, (w - 1) as nat);
        assert(le_bytes_of(v, w).skip(1) =~= le_bytes_of(v / 256, (w - 1) as nat));
        assert(v / 256 < pow256((w - 1) as nat) && v == 256 * (v / 256) + v % 256)
            by (nonlinear_arith)
            requires v < 256 * pow256((w - 1) as nat);
        lemma_le_val_of_bytes(v / 256, (w - 1) as nat);
    }
}

/// A signed value within the range of a `w`-byte field survives the trip
/// through its two's-complement image.
pub proof fn lemma_signed_round_trip(v: int, w: nat)
    requires
        -(pow256(w) as int) <= 2 * v < pow256(w) as int,
    ensures
        unsigned_of(v, w) < pow256(w),
        signed_of(unsigned_of(v, w), w) == v,
{
}

/// The signed reading of any `w`-byte image lies within the field's range.
pub proof fn lemma_signed_range(u: nat, w: nat)
    requires
        u < pow256(w),
    ensures
        -(pow256(w) as int) <= 2 * signed_of(u, w) < pow256(w) as int,
        unsigned_of(signed_of(u, w), w) == u,
{
}

/// Encode the `w` low-order bytes of `v`, least significant first.
pub fn le_encode(v: u128, w: usize) -> (r: Vec<u8>)
    ensures
        r@ == le_bytes_of(v as nat, w as nat),
{
    let mut r: Vec<u8> = Vec::new();
    let mut x: u128 = v;
    let mut i: usize = 0;
    while i < w
        invariant
            i <= w,
            r@.len() == i,
            le_bytes_of(v as nat, w as nat) == r@ + le_bytes_of(x as nat, (w - i) as nat),
        decreases w - i,
    {
        let ghost pre = r@;
        let ghost rest = le_bytes_of(x as nat, (w - i) as nat);
        r.push((x % 256) as u8);
        proof {
            assert(rest == seq![(x as nat % 256) as u8] + le_bytes_of(
                x as nat / 256,
                (w - i - 1) as nat,
            ));
            assert(pre + rest =~= r@ + le_bytes_of(x as nat / 256, (w - i - 1) as nat));
        }
        x = x / 256;
        i = i + 1;
    }
    proof {
        assert(le_bytes_of(x as nat, 0) =~= Seq::<u8>::empty());
        assert(r@ + le_bytes_of(x as nat, 0) =~= r@);
    }
    r
}

/// Decode the first `w` bytes of `bytes` as a little-endian number.
pub fn le_decode(bytes: &[u8], w: usize) -> (r: u128)
    requires
        w <= 16,
        w <= bytes@.len(),
    ensures
        r as nat == le_val_of(bytes@.take(w as int)),
{
    let mut r: u128 = 0;
    let mut i: usize = w;
    proof {
        assert(bytes@.subrange(w as int, w as int) =~= Seq::<u8>::empty());
    }
    while i > 0
        invariant
            i <= w,
            w <= 16,
            w <= bytes@.len(),
            r as nat == le_val_of(bytes@.subrange(i as int, w as int)),
        decreases i,
    {
        proof {
            lemma_le_val_bound(bytes@.subrange(i as int, w as int));
            lemma_pow256_mono((w - i) as nat, 15);
            lemma_pow256_values();
        }
        i = i - 1;
        let b = bytes[i];
        proof {
            assert(bytes@.subrange(i as int, w as int).skip(1) =~= bytes@.subrange(
                i + 1,
                w as int,
            ));
        }
        r = r * 256 + (b as u128);
    }
    proof {
        assert(bytes@.subrange(0, w as int) =~= bytes@.take(w as int));
    }
    r
}

/// Decode the first `w` bytes of `bytes` as a big-endian number.
pub fn be_decode(bytes: &[u8], w: usize) -> (r: u128)
    requires
        w <= 16,
        w <= bytes@.len(),
    ensures
        r as nat == le_val_of(bytes@.take(w as int).reverse()),
{
    let mut r: u128 = 0;
    let mut i: usize = 0;
    proof {
        assert(bytes@.subrange(0, 0).reverse() =~= Seq::<u8>::empty());
    }
    while i < w
        invariant
            i <= w,
            w <= 16,
            w <= bytes@.len(),
            r as nat == le_val_of(bytes@.subrange(0, i as int).reverse()),
        decreases w - i,
    {
        proof {
            lemma_le_val_bound(bytes@.subrange(0, i as int).reverse());
            lemma_pow256_mono(i as nat, 15);
            lemma_pow256_values();
        }
        let b = bytes[i];
        proof {
            assert(bytes@.subrange(0, i + 1).reverse() =~= seq![bytes@[i as int]]
                + bytes@.subrange(0, i as int).reverse());
            assert((seq![bytes@[i as int]] + bytes@.subrange(0, i as int).reverse()).skip(1)
                =~= bytes@.subrange(0, i as int).reverse());
        }
        r = r * 256 + (b as u128);
        i = i + 1;
    }
    proof {
        assert(bytes@.subrange(0, w as int) =~= bytes@.take(w as int));
    }
    r
}

} // verus!
