//! Endian-aware conversion between fixed-width scalar values and byte
//! buffers.
//!
//! Every supported kind has a fixed byte width. Integers are laid out as
//! the base-256 digits of their two's-complement image; a boolean is one
//! byte, `1` for `true` and `0` for `false`. The big-endian form is always
//! the reverse of the little-endian form.

use vstd::prelude::*;

use crate::codec::be_decode;
use crate::codec::le_bytes_of;
use crate::codec::le_decode;
use crate::codec::le_encode;
use crate::codec::le_val_of;
use crate::codec::lemma_le_bytes_len;
use crate::codec::lemma_le_val_bound;
use crate::codec::lemma_le_val_of_bytes;
use crate::codec::lemma_pow256_values;
use crate::codec::lemma_signed_range;
use crate::codec::lemma_signed_round_trip;
use crate::codec::signed_of;
use crate::codec::unsigned_of;

verus! {

/// Endian-aware write of a fixed-width value to a byte buffer.
pub trait WriteBytes {
    /// Width in bytes of the encoded form.
    spec fn spec_width() -> nat;

    /// The little-endian byte representation of the value.
    spec fn le_rep(&self) -> Seq<u8>;

    /// The big-endian byte representation of the value.
    spec fn be_rep(&self) -> Seq<u8>;

    /// Law: both representations are exactly the fixed width long, and
    /// mirror each other byte for byte.
    proof fn lemma_rep_wf(&self)
        ensures
            self.le_rep().len() == Self::spec_width(),
            self.be_rep() == self.le_rep().reverse(),
    ;

    /// The encoded width, as an executable value.
    fn width() -> (r: usize)
        ensures
            r == Self::spec_width(),
    ;

    /// The little-endian bytes of the value, as a fresh buffer.
    fn to_le_vec(&self) -> (r: Vec<u8>)
        ensures
            r@ == self.le_rep(),
    ;

    /// The big-endian bytes of the value, as a fresh buffer.
    fn to_be_vec(&self) -> (r: Vec<u8>)
        ensures
            r@ == self.be_rep(),
    {
        proof {
            self.lemma_rep_wf();
        }
        let le = self.to_le_vec();
        let w = le.len();
        let mut r: Vec<u8> = Vec::new();
        let mut k: usize = 0;
        while k < w
            invariant
                k <= w,
                w == le@.len(),
                le@ == self.le_rep(),
                r@.len() == k,
                forall|j: int| 0 <= j < k ==> r@[j] == le@[w - 1 - j],
            decreases w - k,
        {
            let b = le[w - 1 - k];
            r.push(b);
            k = k + 1;
        }
        proof {
            assert(r@ =~= self.le_rep().reverse());
        }
        r
    }

    /// Writes the bytes of the value into the front of `bytes`, in
    /// little-endian order. No byte at or past the width changes.
    fn write_bytes_le(&self, bytes: &mut [u8])
        requires
            Self::spec_width() <= old(bytes)@.len(),
        ensures
            final(bytes)@ == self.le_rep() + old(bytes)@.skip(Self::spec_width() as int),
            final(bytes)@.len() == old(bytes)@.len(),
            forall|j: int|
                Self::spec_width() <= j < old(bytes)@.len()
                    ==> final(bytes)@[j] == old(bytes)@[j],
    {
        proof {
            self.lemma_rep_wf();
        }
        let enc = self.to_le_vec();
        let w = enc.len();
        let mut k: usize = 0;
        while k < w
            invariant
                k <= w,
                w == enc@.len(),
                enc@ == self.le_rep(),
                w <= bytes@.len(),
                bytes@.len() == old(bytes)@.len(),
                forall|j: int| 0 <= j < k ==> bytes@[j] == enc@[j],
                forall|j: int| k <= j < bytes@.len() ==> bytes@[j] == old(bytes)@[j],
            decreases w - k,
        {
            let b = enc[k];
            bytes[k] = b;
            k = k + 1;
        }
        proof {
            assert(bytes@ =~= self.le_rep() + old(bytes)@.skip(Self::spec_width() as int));
        }
    }

    /// Writes the bytes of the value into the front of `bytes`, in
    /// big-endian order. No byte at or past the width changes.
    fn write_bytes_be(&self, bytes: &mut [u8])
        requires
            Self::spec_width() <= old(bytes)@.len(),
        ensures
            final(bytes)@ == self.be_rep() + old(bytes)@.skip(Self::spec_width() as int),
            final(bytes)@.len() == old(bytes)@.len(),
            forall|j: int|
                Self::spec_width() <= j < old(bytes)@.len()
                    ==> final(bytes)@[j] == old(bytes)@[j],
    {
        proof {
            self.lemma_rep_wf();
        }
        let enc = self.to_be_vec();
        let w = enc.len();
        let mut k: usize = 0;
        while k < w
            invariant
                k <= w,
                w == enc@.len(),
                enc@ == self.be_rep(),
                w <= bytes@.len(),
                bytes@.len() == old(bytes)@.len(),
                forall|j: int| 0 <= j < k ==> bytes@[j] == enc@[j],
                forall|j: int| k <= j < bytes@.len() ==> bytes@[j] == old(bytes)@[j],
            decreases w - k,
        {
            let b = enc[k];
            bytes[k] = b;
            k = k + 1;
        }
        proof {
            assert(bytes@ =~= self.be_rep() + old(bytes)@.skip(Self::spec_width() as int));
        }
    }
}

/// Endian-aware read of a fixed-width value from a byte buffer.
pub trait ReadBytes: WriteBytes + Sized {
    /// The value whose little-endian representation opens `s`.
    spec fn from_le(s: Seq<u8>) -> Self;

    /// The value whose big-endian representation opens `s`.
    spec fn from_be(s: Seq<u8>) -> Self;

    /// Law: decoding inverts encoding, in both byte orders.
    proof fn lemma_round_trip(&self)
        ensures
            Self::from_le(self.le_rep()) == *self,
            Self::from_be(self.be_rep()) == *self,
    ;

    /// Reads a value from the first width bytes of `bytes`, little-endian.
    fn read_bytes_le(bytes: &[u8]) -> (r: Self)
        requires
            Self::spec_width() <= bytes@.len(),
        ensures
            r == Self::from_le(bytes@.take(Self::spec_width() as int)),
    ;

    /// Reads a value from the first width bytes of `bytes`, big-endian.
    fn read_bytes_be(bytes: &[u8]) -> (r: Self)
        requires
            Self::spec_width() <= bytes@.len(),
        ensures
            r == Self::from_be(bytes@.take(Self::spec_width() as int)),
    ;
}

/// Law: for every supported kind and both byte orders, decoding an encoded
/// value yields the value back.
pub proof fn lemma_codec_round_trip<V: ReadBytes>(v: V)
    ensures
        V::from_le(v.le_rep()) == v,
        V::from_be(v.be_rep()) == v,
{
    v.lemma_round_trip();
}

/// Law: whenever some byte of the little-endian representation differs
/// from its mirror-image counterpart, the two byte orders encode the value
/// differently.
pub proof fn lemma_cross_order_distinct<V: WriteBytes>(v: V)
    requires
        exists|i: int|
            0 <= i < V::spec_width()
                && #[trigger] v.le_rep()[i] != v.le_rep()[V::spec_width() - 1 - i],
    ensures
        v.le_rep() != v.be_rep(),
{
    v.lemma_rep_wf();
    let i = choose|i: int|
        0 <= i < V::spec_width()
            && #[trigger] v.le_rep()[i] != v.le_rep()[V::spec_width() - 1 - i];
    assert(v.be_rep()[i] == v.le_rep()[V::spec_width() - 1 - i]);
}

/// Law: a boolean decodes from any single byte `b`, in either order, as
/// `false` exactly when `b` is zero and as `true` otherwise.
pub proof fn lemma_bool_widening(b: u8)
    ensures
        <bool as ReadBytes>::from_le(seq![b]) == (b != 0),
        <bool as ReadBytes>::from_be(seq![b]) == (b != 0),
{
}

fn i8_image(v: i8) -> (r: u8)
    ensures
        r as nat == unsigned_of(v as int, 1),
{
    proof {
        lemma_pow256_values();
    }
    if v >= 0 {
        v as u8
    } else {
        (((v + 0x40) + 0x40) as u8) + 0x80
    }
}

fn i8_unimage(u: u8) -> (r: i8)
    ensures
        r as int == signed_of(u as nat, 1),
{
    proof {
        lemma_pow256_values();
    }
    if u < 0x80 {
        u as i8
    } else {
        (((u - 0x80) as i8) - 0x40) - 0x40
    }
}

fn i16_image(v: i16) -> (r: u16)
    ensures
        r as nat == unsigned_of(v as int, 2),
{
    proof {
        lemma_pow256_values();
    }
    if v >= 0 {
        v as u16
    } else {
        (((v + 0x4000) + 0x4000) as u16) + 0x8000
    }
}

fn i16_unimage(u: u16) -> (r: i16)
    ensures
        r as int == signed_of(u as nat, 2),
{
    proof {
        lemma_pow256_values();
    }
    if u < 0x8000 {
        u as i16
    } else {
        (((u - 0x8000) as i16) - 0x4000) - 0x4000
    }
}

fn i32_image(v: i32) -> (r: u32)
    ensures
        r as nat == unsigned_of(v as int, 4),
{
    proof {
        lemma_pow256_values();
    }
    if v >= 0 {
        v as u32
    } else {
        (((v + 0x4000_0000) + 0x4000_0000) as u32) + 0x8000_0000
    }
}

fn i32_unimage(u: u32) -> (r: i32)
    ensures
        r as int == signed_of(u as nat, 4),
{
    proof {
        lemma_pow256_values();
    }
    if u < 0x8000_0000 {
        u as i32
    } else {
        (((u - 0x8000_0000) as i32) - 0x4000_0000) - 0x4000_0000
    }
}

fn i64_image(v: i64) -> (r: u64)
    ensures
        r as nat == unsigned_of(v as int, 8),
{
    proof {
        lemma_pow256_values();
    }
    if v >= 0 {
        v as u64
    } else {
        (((v + 0x4000_0000_0000_0000) + 0x4000_0000_0000_0000) as u64) + 0x8000_0000_0000_0000
    }
}

fn i64_unimage(u: u64) -> (r: i64)
    ensures
        r as int == signed_of(u as nat, 8),
{
    proof {
        lemma_pow256_values();
    }
    if u < 0x8000_0000_0000_0000 {
        u as i64
    } else {
        (((u - 0x8000_0000_0000_0000) as i64) - 0x4000_0000_0000_0000) - 0x4000_0000_0000_0000
    }
}

fn i128_image(v: i128) -> (r: u128)
    ensures
        r as nat == unsigned_of(v as int, 16),
{
    proof {
        lemma_pow256_values();
    }
    if v >= 0 {
        v as u128
    } else {
        (((v + 0x4000_0000_0000_0000_0000_0000_0000_0000)
            + 0x4000_0000_0000_0000_0000_0000_0000_0000) as u128)
            + 0x8000_0000_0000_0000_0000_0000_0000_0000
    }
}

fn i128_unimage(u: u128) -> (r: i128)
    ensures
        r as int == signed_of(u as nat, 16),
{
    proof {
        lemma_pow256_values();
    }
    if u < 0x8000_0000_0000_0000_0000_0000_0000_0000 {
        u as i128
    } else {
        (((u - 0x8000_0000_0000_0000_0000_0000_0000_0000) as i128)
            - 0x4000_0000_0000_0000_0000_0000_0000_0000)
            - 0x4000_0000_0000_0000_0000_0000_0000_0000
    }
}

impl WriteBytes for u8 {
    open spec fn spec_width() -> nat {
        1
    }

    open spec fn le_rep(&self) -> Seq<u8> {
        le_bytes_of(*self as nat, 1)
    }

    open spec fn be_rep(&self) -> Seq<u8> {
        le_bytes_of(*self as nat, 1).reverse()
    }

    proof fn lemma_rep_wf(&self) {
        lemma_le_bytes_len(*self as nat, 1);
        assert(self.le_rep() == le_bytes_of(*self as nat, 1));
        assert(<u8 as WriteBytes>::spec_width() == 1);
    }

    fn width() -> usize {
        1
    }

    fn to_le_vec(&self) -> Vec<u8> {
        le_encode(*self as u128, 1)
    }
}

impl ReadBytes for u8 {
    open spec fn from_le(s: Seq<u8>) -> u8 {
        le_val_of(s) as u8
    }

    open spec fn from_be(s: Seq<u8>) -> u8 {
        le_val_of(s.reverse()) as u8
    }

    proof fn lemma_round_trip(&self) {
        lemma_pow256_values();
        lemma_le_bytes_len(*self as nat, 1);
        lemma_le_val_of_bytes(*self as nat, 1);
        assert(self.le_rep().reverse().reverse() =~= self.le_rep());
    }

    fn read_bytes_le(bytes: &[u8]) -> u8 {
        proof {
            lemma_le_val_bound(bytes@.take(1));
            lemma_pow256_values();
        }
        le_decode(bytes, 1) as u8
    }

    fn read_bytes_be(bytes: &[u8]) -> u8 {
        proof {
            lemma_le_val_bound(bytes@.take(1).reverse());
            lemma_pow256_values();
        }
        be_decode(bytes, 1) as u8
    }
}

impl WriteBytes for u16 {
    open spec fn spec_width() -> nat {
        2
    }

    open spec fn le_rep(&self) -> Seq<u8> {
        le_bytes_of(*self as nat, 2)
    }

    open spec fn be_rep(&self) -> Seq<u8> {
        le_bytes_of(*self as nat, 2).reverse()
    }

    proof fn lemma_rep_wf(&self) {
        lemma_le_bytes_len(*self as nat, 2);
        assert(self.le_rep() == le_bytes_of(*self as nat, 2));
        assert(<u16 as WriteBytes>::spec_width() == 2);
    }

    fn width() -> usize {
        2
    }

    fn to_le_vec(&self) -> Vec<u8> {
        le_encode(*self as u128, 2)
    }
}

impl ReadBytes for u16 {
    open spec fn from_le(s: Seq<u8>) -> u16 {
        le_val_of(s) as u16
    }

    open spec fn from_be(s: Seq<u8>) -> u16 {
        le_val_of(s.reverse()) as u16
    }

    proof fn lemma_round_trip(&self) {
        lemma_pow256_values();
        lemma_le_bytes_len(*self as nat, 2);
        lemma_le_val_of_bytes(*self as nat, 2);
        assert(self.le_rep().reverse().reverse() =~= self.le_rep());
    }

    fn read_bytes_le(bytes: &[u8]) -> u16 {
        proof {
            lemma_le_val_bound(bytes@.take(2));
            lemma_pow256_values();
        }
        le_decode(bytes, 2) as u16
    }

    fn read_bytes_be(bytes: &[u8]) -> u16 {
        proof {
            lemma_le_val_bound(bytes@.take(2).reverse());
            lemma_pow256_values();
        }
        be_decode(bytes, 2) as u16
    }
}

impl WriteBytes for u32 {
    open spec fn spec_width() -> nat {
        4
    }

    open spec fn le_rep(&self) -> Seq<u8> {
        le_bytes_of(*self as nat, 4)
    }

    open spec fn be_rep(&self) -> Seq<u8> {
        le_bytes_of(*self as nat, 4).reverse()
    }

    proof fn lemma_rep_wf(&self) {
        lemma_le_bytes_len(*self as nat, 4);
        assert(self.le_rep() == le_bytes_of(*self as nat, 4));
        assert(<u32 as WriteBytes>::spec_width() == 4);
    }

    fn width() -> usize {
        4
    }

    fn to_le_vec(&self) -> Vec<u8> {
        le_encode(*self as u128, 4)
    }
}

impl ReadBytes for u32 {
    open spec fn from_le(s: Seq<u8>) -> u32 {
        le_val_of(s) as u32
    }

    open spec fn from_be(s: Seq<u8>) -> u32 {
        le_val_of(s.reverse()) as u32
    }

    proof fn lemma_round_trip(&self) {
        lemma_pow256_values();
        lemma_le_bytes_len(*self as nat, 4);
        lemma_le_val_of_bytes(*self as nat, 4);
        assert(self.le_rep().reverse().reverse() =~= self.le_rep());
    }

    fn read_bytes_le(bytes: &[u8]) -> u32 {
        proof {
            lemma_le_val_bound(bytes@.take(4));
            lemma_pow256_values();
        }
        le_decode(bytes, 4) as u32
    }

    fn read_bytes_be(bytes: &[u8]) -> u32 {
        proof {
            lemma_le_val_bound(bytes@.take(4).reverse());
            lemma_pow256_values();
        }
        be_decode(bytes, 4) as u32
    }
}

impl WriteBytes for u64 {
    open spec fn spec_width() -> nat {
        8
    }

    open spec fn le_rep(&self) -> Seq<u8> {
        le_bytes_of(*self as nat, 8)
    }

    open spec fn be_rep(&self) -> Seq<u8> {
        le_bytes_of(*self as nat, 8).reverse()
    }

    proof fn lemma_rep_wf(&self) {
        lemma_le_bytes_len(*self as nat, 8);
        assert(self.le_rep() == le_bytes_of(*self as nat, 8));
        assert(<u64 as WriteBytes>::spec_width() == 8);
    }

    fn width() -> usize {
        8
    }

    fn to_le_vec(&self) -> Vec<u8> {
        le_encode(*self as u128, 8)
    }
}

impl ReadBytes for u64 {
    open spec fn from_le(s: Seq<u8>) -> u64 {
        le_val_of(s) as u64
    }

    open spec fn from_be(s: Seq<u8>) -> u64 {
        le_val_of(s.reverse()) as u64
    }

    proof fn lemma_round_trip(&self) {
        lemma_pow256_values();
        lemma_le_bytes_len(*self as nat, 8);
        lemma_le_val_of_bytes(*self as nat, 8);
        assert(self.le_rep().reverse().reverse() =~= self.le_rep());
    }

    fn read_bytes_le(bytes: &[u8]) -> u64 {
        proof {
            lemma_le_val_bound(bytes@.take(8));
            lemma_pow256_values();
        }
        le_decode(bytes, 8) as u64
    }

    fn read_bytes_be(bytes: &[u8]) -> u64 {
        proof {
            lemma_le_val_bound(bytes@.take(8).reverse());
            lemma_pow256_values();
        }
        be_decode(bytes, 8) as u64
    }
}

impl WriteBytes for u128 {
    open spec fn spec_width() -> nat {
        16
    }

    open spec fn le_rep(&self) -> Seq<u8> {
        le_bytes_of(*self as nat, 16)
    }

    open spec fn be_rep(&self) -> Seq<u8> {
        le_bytes_of(*self as nat, 16).reverse()
    }

    proof fn lemma_rep_wf(&self) {
        lemma_le_bytes_len(*self as nat, 16);
        assert(self.le_rep() == le_bytes_of(*self as nat, 16));
        assert(<u128 as WriteBytes>::spec_width() == 16);
    }

    fn width() -> usize {
        16
    }

    fn to_le_vec(&self) -> Vec<u8> {
        le_encode(*self, 16)
    }
}

impl ReadBytes for u128 {
    open spec fn from_le(s: Seq<u8>) -> u128 {
        le_val_of(s) as u128
    }

    open spec fn from_be(s: Seq<u8>) -> u128 {
        le_val_of(s.reverse()) as u128
    }

    proof fn lemma_round_trip(&self) {
        lemma_pow256_values();
        lemma_le_bytes_len(*self as nat, 16);
        lemma_le_val_of_bytes(*self as nat, 16);
        assert(self.le_rep().reverse().reverse() =~= self.le_rep());
    }

    fn read_bytes_le(bytes: &[u8]) -> u128 {
        proof {
            lemma_le_val_bound(bytes@.take(16));
            lemma_pow256_values();
        }
        le_decode(bytes, 16)
    }

    fn read_bytes_be(bytes: &[u8]) -> u128 {
        proof {
            lemma_le_val_bound(bytes@.take(16).reverse());
            lemma_pow256_values();
        }
        be_decode(bytes, 16)
    }
}

impl WriteBytes for i8 {
    open spec fn spec_width() -> nat {
        1
    }

    open spec fn le_rep(&self) -> Seq<u8> {
        le_bytes_of(unsigned_of(*self as int, 1), 1)
    }

    open spec fn be_rep(&self) -> Seq<u8> {
        le_bytes_of(unsigned_of(*self as int, 1), 1).reverse()
    }

    proof fn lemma_rep_wf(&self) {
        lemma_le_bytes_len(unsigned_of(*self as int, 1), 1);
        assert(self.le_rep() == le_bytes_of(unsigned_of(*self as int, 1), 1));
        assert(<i8 as WriteBytes>::spec_width() == 1);
    }

    fn width() -> usize {
        1
    }

    fn to_le_vec(&self) -> Vec<u8> {
        le_encode(i8_image(*self) as u128, 1)
    }
}

impl ReadBytes for i8 {
    open spec fn from_le(s: Seq<u8>) -> i8 {
        signed_of(le_val_of(s), 1) as i8
    }

    open spec fn from_be(s: Seq<u8>) -> i8 {
        signed_of(le_val_of(s.reverse()), 1) as i8
    }

    proof fn lemma_round_trip(&self) {
        lemma_pow256_values();
        lemma_signed_round_trip(*self as int, 1);
        lemma_le_bytes_len(unsigned_of(*self as int, 1), 1);
        lemma_le_val_of_bytes(unsigned_of(*self as int, 1), 1);
        assert(self.le_rep().reverse().reverse() =~= self.le_rep());
    }

    fn read_bytes_le(bytes: &[u8]) -> i8 {
        let u = le_decode(bytes, 1);
        proof {
            lemma_le_val_bound(bytes@.take(1));
            lemma_pow256_values();
            lemma_signed_range(u as nat, 1);
        }
        i8_unimage(u as u8)
    }

    fn read_bytes_be(bytes: &[u8]) -> i8 {
        let u = be_decode(bytes, 1);
        proof {
            lemma_le_val_bound(bytes@.take(1).reverse());
            lemma_pow256_values();
            lemma_signed_range(u as nat, 1);
        }
        i8_unimage(u as u8)
    }
}

impl WriteBytes for i16 {
    open spec fn spec_width() -> nat {
        2
    }

    open spec fn le_rep(&self) -> Seq<u8> {
        le_bytes_of(unsigned_of(*self as int, 2), 2)
    }

    open spec fn be_rep(&self) -> Seq<u8> {
        le_bytes_of(unsigned_of(*self as int, 2), 2).reverse()
    }

    proof fn lemma_rep_wf(&self) {
        lemma_le_bytes_len(unsigned_of(*self as int, 2), 2);
        assert(self.le_rep() == le_bytes_of(unsigned_of(*self as int, 2), 2));
        assert(<i16 as WriteBytes>::spec_width() == 2);
    }

    fn width() -> usize {
        2
    }

    fn to_le_vec(&self) -> Vec<u8> {
        le_encode(i16_image(*self) as u128, 2)
    }
}

impl ReadBytes for i16 {
    open spec fn from_le(s: Seq<u8>) -> i16 {
        signed_of(le_val_of(s), 2) as i16
    }

    open spec fn from_be(s: Seq<u8>) -> i16 {
        signed_of(le_val_of(s.reverse()), 2) as i16
    }

    proof fn lemma_round_trip(&self) {
        lemma_pow256_values();
        lemma_signed_round_trip(*self as int, 2);
        lemma_le_bytes_len(unsigned_of(*self as int, 2), 2);
        lemma_le_val_of_bytes(unsigned_of(*self as int, 2), 2);
        assert(self.le_rep().reverse().reverse() =~= self.le_rep());
    }

    fn read_bytes_le(bytes: &[u8]) -> i16 {
        let u = le_decode(bytes, 2);
        proof {
            lemma_le_val_bound(bytes@.take(2));
            lemma_pow256_values();
            lemma_signed_range(u as nat, 2);
        }
        i16_unimage(u as u16)
    }

    fn read_bytes_be(bytes: &[u8]) -> i16 {
        let u = be_decode(bytes, 2);
        proof {
            lemma_le_val_bound(bytes@.take(2).reverse());
            lemma_pow256_values();
            lemma_signed_range(u as nat, 2);
        }
        i16_unimage(u as u16)
    }
}

impl WriteBytes for i32 {
    open spec fn spec_width() -> nat {
        4
    }

    open spec fn le_rep(&self) -> Seq<u8> {
        le_bytes_of(unsigned_of(*self as int, 4), 4)
    }

    open spec fn be_rep(&self) -> Seq<u8> {
        le_bytes_of(unsigned_of(*self as int, 4), 4).reverse()
    }

    proof fn lemma_rep_wf(&self) {
        lemma_le_bytes_len(unsigned_of(*self as int, 4), 4);
        assert(self.le_rep() == le_bytes_of(unsigned_of(*self as int, 4), 4));
        assert(<i32 as WriteBytes>::spec_width() == 4);
    }

    fn width() -> usize {
        4
    }

    fn to_le_vec(&self) -> Vec<u8> {
        le_encode(i32_image(*self) as u128, 4)
    }
}

impl ReadBytes for i32 {
    open spec fn from_le(s: Seq<u8>) -> i32 {
        signed_of(le_val_of(s), 4) as i32
    }

    open spec fn from_be(s: Seq<u8>) -> i32 {
        signed_of(le_val_of(s.reverse()), 4) as i32
    }

    proof fn lemma_round_trip(&self) {
        lemma_pow256_values();
        lemma_signed_round_trip(*self as int, 4);
        lemma_le_bytes_len(unsigned_of(*self as int, 4), 4);
        lemma_le_val_of_bytes(unsigned_of(*self as int, 4), 4);
        assert(self.le_rep().reverse().reverse() =~= self.le_rep());
    }

    fn read_bytes_le(bytes: &[u8]) -> i32 {
        let u = le_decode(bytes, 4);
        proof {
            lemma_le_val_bound(bytes@.take(4));
            lemma_pow256_values();
            lemma_signed_range(u as nat, 4);
        }
        i32_unimage(u as u32)
    }

    fn read_bytes_be(bytes: &[u8]) -> i32 {
        let u = be_decode(bytes, 4);
        proof {
            lemma_le_val_bound(bytes@.take(4).reverse());
            lemma_pow256_values();
            lemma_signed_range(u as nat, 4);
        }
        i32_unimage(u as u32)
    }
}

impl WriteBytes for i64 {
    open spec fn spec_width() -> nat {
        8
    }

    open spec fn le_rep(&self) -> Seq<u8> {
        le_bytes_of(unsigned_of(*self as int, 8), 8)
    }

    open spec fn be_rep(&self) -> Seq<u8> {
        le_bytes_of(unsigned_of(*self as int, 8), 8).reverse()
    }

    proof fn lemma_rep_wf(&self) {
        lemma_le_bytes_len(unsigned_of(*self as int, 8), 8);
        assert(self.le_rep() == le_bytes_of(unsigned_of(*self as int, 8), 8));
        assert(<i64 as WriteBytes>::spec_width() == 8);
    }

    fn width() -> usize {
        8
    }

    fn to_le_vec(&self) -> Vec<u8> {
        le_encode(i64_image(*self) as u128, 8)
    }
}

impl ReadBytes for i64 {
    open spec fn from_le(s: Seq<u8>) -> i64 {
        signed_of(le_val_of(s), 8) as i64
    }

    open spec fn from_be(s: Seq<u8>) -> i64 {
        signed_of(le_val_of(s.reverse()), 8) as i64
    }

    proof fn lemma_round_trip(&self) {
        lemma_pow256_values();
        lemma_signed_round_trip(*self as int, 8);
        lemma_le_bytes_len(unsigned_of(*self as int, 8), 8);
        lemma_le_val_of_bytes(unsigned_of(*self as int, 8), 8);
        assert(self.le_rep().reverse().reverse() =~= self.le_rep());
    }

    fn read_bytes_le(bytes: &[u8]) -> i64 {
        let u = le_decode(bytes, 8);
        proof {
            lemma_le_val_bound(bytes@.take(8));
            lemma_pow256_values();
            lemma_signed_range(u as nat, 8);
        }
        i64_unimage(u as u64)
    }

    fn read_bytes_be(bytes: &[u8]) -> i64 {
        let u = be_decode(bytes, 8);
        proof {
            lemma_le_val_bound(bytes@.take(8).reverse());
            lemma_pow256_values();
            lemma_signed_range(u as nat, 8);
        }
        i64_unimage(u as u64)
    }
}

impl WriteBytes for i128 {
    open spec fn spec_width() -> nat {
        16
    }

    open spec fn le_rep(&self) -> Seq<u8> {
        le_bytes_of(unsigned_of(*self as int, 16), 16)
    }

    open spec fn be_rep(&self) -> Seq<u8> {
        le_bytes_of(unsigned_of(*self as int, 16), 16).reverse()
    }

    proof fn lemma_rep_wf(&self) {
        lemma_le_bytes_len(unsigned_of(*self as int, 16), 16);
        assert(self.le_rep() == le_bytes_of(unsigned_of(*self as int, 16), 16));
        assert(<i128 as WriteBytes>::spec_width() == 16);
    }

    fn width() -> usize {
        16
    }

    fn to_le_vec(&self) -> Vec<u8> {
        le_encode(i128_image(*self), 16)
    }
}

impl ReadBytes for i128 {
    open spec fn from_le(s: Seq<u8>) -> i128 {
        signed_of(le_val_of(s), 16) as i128
    }

    open spec fn from_be(s: Seq<u8>) -> i128 {
        signed_of(le_val_of(s.reverse()), 16) as i128
    }

    proof fn lemma_round_trip(&self) {
        lemma_pow256_values();
        lemma_signed_round_trip(*self as int, 16);
        lemma_le_bytes_len(unsigned_of(*self as int, 16), 16);
        lemma_le_val_of_bytes(unsigned_of(*self as int, 16), 16);
        assert(self.le_rep().reverse().reverse() =~= self.le_rep());
    }

    fn read_bytes_le(bytes: &[u8]) -> i128 {
        let u = le_decode(bytes, 16);
        proof {
            lemma_le_val_bound(bytes@.take(16));
            lemma_pow256_values();
            lemma_signed_range(u as nat, 16);
        }
        i128_unimage(u)
    }

    fn read_bytes_be(bytes: &[u8]) -> i128 {
        let u = be_decode(bytes, 16);
        proof {
            lemma_le_val_bound(bytes@.take(16).reverse());
            lemma_pow256_values();
            lemma_signed_range(u as nat, 16);
        }
        i128_unimage(u)
    }
}

impl WriteBytes for bool {
    open spec fn spec_width() -> nat {
        1
    }

    open spec fn le_rep(&self) -> Seq<u8> {
        seq![if *self { 1u8 } else { 0u8 }]
    }

    open spec fn be_rep(&self) -> Seq<u8> {
        seq![if *self { 1u8 } else { 0u8 }]
    }

    proof fn lemma_rep_wf(&self) {
        assert(self.le_rep().len() == 1);
        assert(<bool as WriteBytes>::spec_width() == 1);
        assert(self.be_rep() =~= self.le_rep().reverse());
    }

    fn width() -> usize {
        1
    }

    fn to_le_vec(&self) -> Vec<u8> {
        let mut r: Vec<u8> = Vec::new();
        r.push(if *self { 1u8 } else { 0u8 });
        proof {
            assert(r@ =~= self.le_rep());
        }
        r
    }
}

impl ReadBytes for bool {
    open spec fn from_le(s: Seq<u8>) -> bool {
        s[0] != 0
    }

    open spec fn from_be(s: Seq<u8>) -> bool {
        s[0] != 0
    }

    proof fn lemma_round_trip(&self) {
    }

    fn read_bytes_le(bytes: &[u8]) -> bool {
        let b = bytes[0];
        b != 0
    }

    fn read_bytes_be(bytes: &[u8]) -> bool {
        let b = bytes[0];
        b != 0
    }
}

} // verus!
