//! A typed window over any byte-addressable storage.
//!
//! [`ByteBuf`] wraps exactly one storage value and reads or writes any
//! supported scalar kind at caller-chosen byte offsets, in either byte
//! order. It keeps no cursor: every access is addressed explicitly, and
//! accesses at disjoint offsets never disturb one another.

use vstd::prelude::*;

use crate::bytes::ReadBytes;
use crate::bytes::WriteBytes;
use crate::codec::spliced;

verus! {

/// Read capability over a contiguous byte region.
pub trait ByteStorage {
    /// The bytes held by the storage.
    spec fn bytes(&self) -> Seq<u8>;

    /// The length of the region.
    fn byte_len(&self) -> (r: usize)
        ensures
            r == self.bytes().len(),
    ;

    /// The byte at index `i`.
    fn byte_at(&self, i: usize) -> (r: u8)
        requires
            i < self.bytes().len(),
        ensures
            r == self.bytes()[i as int],
    ;
}

/// Mutation capability over a contiguous byte region.
pub trait ByteStorageMut: ByteStorage {
    /// Replaces the byte at index `i`; the length never changes.
    fn put_byte(&mut self, i: usize, b: u8)
        requires
            i < old(self).bytes().len(),
        ensures
            final(self).bytes() == old(self).bytes().update(i as int, b),
    ;
}

impl ByteStorage for Vec<u8> {
    open spec fn bytes(&self) -> Seq<u8> {
        self@
    }

    fn byte_len(&self) -> usize {
        self.len()
    }

    fn byte_at(&self, i: usize) -> u8 {
        self[i]
    }
}

impl ByteStorageMut for Vec<u8> {
    fn put_byte(&mut self, i: usize, b: u8) {
        self[i] = b;
    }
}

impl<const N: usize> ByteStorage for [u8; N] {
    open spec fn bytes(&self) -> Seq<u8> {
        self@
    }

    fn byte_len(&self) -> usize {
        N
    }

    fn byte_at(&self, i: usize) -> u8 {
        self[i]
    }
}

impl<const N: usize> ByteStorageMut for [u8; N] {
    fn put_byte(&mut self, i: usize, b: u8) {
        self[i] = b;
    }
}

impl<'a> ByteStorage for &'a mut [u8] {
    open spec fn bytes(&self) -> Seq<u8> {
        (**self)@
    }

    fn byte_len(&self) -> usize {
        (**self).len()
    }

    fn byte_at(&self, i: usize) -> u8 {
        (**self)[i]
    }
}

impl<'a> ByteStorageMut for &'a mut [u8] {
    fn put_byte(&mut self, i: usize, b: u8) {
        (**self)[i] = b;
    }
}

/// A wrapper that gives typed, offset-addressed access to a buffer of
/// bytes.
#[derive(Clone, Copy, Debug, PartialEq, Eq)]
pub struct ByteBuf<T> {
    inner: T,
}

/// A stack-allocated, fixed-size [`ByteBuf`].
pub type StaticByteBuf<const N: usize> = ByteBuf<[u8; N]>;

impl<T> ByteBuf<T> {
    /// The wrapped storage value.
    pub closed spec fn wrapped(&self) -> T {
        self.inner
    }

    /// Wraps the given bytes-like object. Nothing is validated at
    /// construction: an empty or short storage is legal to wrap, and
    /// bounds matter only at each access.
    pub fn new(inner: T) -> (r: Self)
        ensures
            r.wrapped() == inner,
    {
        ByteBuf { inner }
    }

    /// Returns the wrapped storage, unchanged.
    pub fn into_inner(self) -> (r: T)
        ensures
            r == self.wrapped(),
    {
        self.inner
    }

    /// Direct read-only passthrough to the wrapped storage.
    pub fn storage(&self) -> (r: &T)
        ensures
            *r == self.wrapped(),
    {
        &self.inner
    }

    /// Direct mutable passthrough to the wrapped storage.
    pub fn storage_mut(&mut self) -> (r: &mut T)
        ensures
            *r == old(self).wrapped(),
            final(self).wrapped() == *final(r),
    {
        &mut self.inner
    }
}

impl<T: ByteStorage> ByteBuf<T> {
    /// The bytes of the wrapped storage.
    pub open spec fn contents(&self) -> Seq<u8> {
        self.wrapped().bytes()
    }

    /// Whether a field of kind `V` fits at the byte offset `pos`. This is
    /// the boundary rule of every typed access: a read or write faults
    /// exactly when this is false, which includes every `pos` at or past
    /// the length of the storage.
    pub fn fits<V: WriteBytes>(&self, pos: usize) -> (r: bool)
        ensures
            r == (pos + V::spec_width() <= self.contents().len()),
    {
        let n = self.inner.byte_len();
        pos <= n && V::width() <= n - pos
    }

    /// Reads a little-endian field at the byte offset `pos`.
    pub fn get_le<V: ReadBytes>(&self, pos: usize) -> (r: V)
        requires
            pos + V::spec_width() <= self.contents().len(),
        ensures
            r == V::from_le(self.contents().subrange(pos as int, pos + V::spec_width())),
    {
        let n = self.inner.byte_len();
        let w = V::width();
        let mut tmp: Vec<u8> = Vec::new();
        let mut k: usize = 0;
        while k < w
            invariant
                k <= w,
                w == V::spec_width(),
                pos + w <= n,
                n == self.contents().len(),
                tmp@.len() == k,
                forall|j: int| 0 <= j < k ==> tmp@[j] == self.contents()[pos + j],
            decreases w - k,
        {
            let b = self.inner.byte_at(pos + k);
            tmp.push(b);
            k = k + 1;
        }
        proof {
            assert(tmp@ =~= self.contents().subrange(pos as int, pos + V::spec_width()));
            assert(tmp@.take(V::spec_width() as int) =~= tmp@);
        }
        V::read_bytes_le(tmp.as_slice())
    }

    /// Reads a big-endian field at the byte offset `pos`.
    pub fn get_be<V: ReadBytes>(&self, pos: usize) -> (r: V)
        requires
            pos + V::spec_width() <= self.contents().len(),
        ensures
            r == V::from_be(self.contents().subrange(pos as int, pos + V::spec_width())),
    {
        let n = self.inner.byte_len();
        let w = V::width();
        let mut tmp: Vec<u8> = Vec::new();
        let mut k: usize = 0;
        while k < w
            invariant
                k <= w,
                w == V::spec_width(),
                pos + w <= n,
                n == self.contents().len(),
                tmp@.len() == k,
                forall|j: int| 0 <= j < k ==> tmp@[j] == self.contents()[pos + j],
            decreases w - k,
        {
            let b = self.inner.byte_at(pos + k);
            tmp.push(b);
            k = k + 1;
        }
        proof {
            assert(tmp@ =~= self.contents().subrange(pos as int, pos + V::spec_width()));
            assert(tmp@.take(V::spec_width() as int) =~= tmp@);
        }
        V::read_bytes_be(tmp.as_slice())
    }
}

impl<T: ByteStorageMut> ByteBuf<T> {
    /// Writes `value` in little-endian order at the byte offset `pos` and
    /// returns the view again, so that further writes can be chained. No
    /// byte outside `pos .. pos + width` changes.
    pub fn set_le<V: WriteBytes>(&mut self, pos: usize, value: V) -> (r: &mut Self)
        requires
            pos + V::spec_width() <= old(self).contents().len(),
        ensures
            (*r).contents() == spliced(old(self).contents(), pos as int, value.le_rep()),
            (*r).contents().len() == old(self).contents().len(),
            (*r).contents().subrange(pos as int, pos + V::spec_width()) == value.le_rep(),
            forall|j: int|
                0 <= j < old(self).contents().len() && !(pos <= j < pos + V::spec_width())
                    ==> (*r).contents()[j] == old(self).contents()[j],
            *final(self) == *final(r),
    {
        proof {
            value.lemma_rep_wf();
        }
        let n = self.inner.byte_len();
        let enc = value.to_le_vec();
        let w = enc.len();
        let mut k: usize = 0;
        while k < w
            invariant
                k <= w,
                w == V::spec_width(),
                enc@ == value.le_rep(),
                enc@.len() == w,
                pos + w <= n,
                n <= usize::MAX,
                self.contents().len() == old(self).contents().len(),
                n == self.contents().len(),
                forall|j: int|
                    0 <= j < self.contents().len() && !(pos + w - k <= j < pos + w)
                        ==> self.contents()[j] == old(self).contents()[j],
                forall|j: int|
                    pos + w - k <= j < pos + w ==> self.contents()[j] == enc@[j - pos],
            decreases w - k,
        {
            // The highest byte goes first: a boundary fault raised against
            // an unchecked caller then aborts before any byte has changed,
            // so a fault never leaves a partial write behind.
            let i = w - 1 - k;
            let b = enc[i];
            self.inner.put_byte(pos + i, b);
            k = k + 1;
        }
        proof {
            assert(self.contents() =~= spliced(old(self).contents(), pos as int, value.le_rep()));
            assert(self.contents().subrange(pos as int, pos + V::spec_width())
                =~= value.le_rep());
        }
        self
    }

    /// Writes `value` in big-endian order at the byte offset `pos` and
    /// returns the view again, so that further writes can be chained. No
    /// byte outside `pos .. pos + width` changes.
    pub fn set_be<V: WriteBytes>(&mut self, pos: usize, value: V) -> (r: &mut Self)
        requires
            pos + V::spec_width() <= old(self).contents().len(),
        ensures
            (*r).contents() == spliced(old(self).contents(), pos as int, value.be_rep()),
            (*r).contents().len() == old(self).contents().len(),
            (*r).contents().subrange(pos as int, pos + V::spec_width()) == value.be_rep(),
            forall|j: int|
                0 <= j < old(self).contents().len() && !(pos <= j < pos + V::spec_width())
                    ==> (*r).contents()[j] == old(self).contents()[j],
            *final(self) == *final(r),
    {
        proof {
            value.lemma_rep_wf();
        }
        let n = self.inner.byte_len();
        let enc = value.to_be_vec();
        let w = enc.len();
        let mut k: usize = 0;
        while k < w
            invariant
                k <= w,
                w == V::spec_width(),
                enc@ == value.be_rep(),
                enc@.len() == w,
                pos + w <= n,
                n <= usize::MAX,
                self.contents().len() == old(self).contents().len(),
                n == self.contents().len(),
                forall|j: int|
                    0 <= j < self.contents().len() && !(pos + w - k <= j < pos + w)
                        ==> self.contents()[j] == old(self).contents()[j],
                forall|j: int|
                    pos + w - k <= j < pos + w ==> self.contents()[j] == enc@[j - pos],
            decreases w - k,
        {
            // The highest byte goes first: a boundary fault raised against
            // an unchecked caller then aborts before any byte has changed,
            // so a fault never leaves a partial write behind.
            let i = w - 1 - k;
            let b = enc[i];
            self.inner.put_byte(pos + i, b);
            k = k + 1;
        }
        proof {
            assert(self.contents() =~= spliced(old(self).contents(), pos as int, value.be_rep()));
            assert(self.contents().subrange(pos as int, pos + V::spec_width())
                =~= value.be_rep());
        }
        self
    }
}

impl<T> From<T> for ByteBuf<T> {
    /// Wraps the given storage, as [`ByteBuf::new`] does.
    fn from(value: T) -> Self {
        ByteBuf::new(value)
    }
}

impl<T> vstd::std_specs::convert::FromSpecImpl<T> for ByteBuf<T> {
    closed spec fn obeys_from_spec() -> bool {
        true
    }

    closed spec fn from_spec(v: T) -> Self {
        ByteBuf { inner: v }
    }
}

impl<T: Copy> From<&T> for ByteBuf<T> {
    /// Wraps a copy of the referenced storage.
    fn from(value: &T) -> Self {
        ByteBuf::new(*value)
    }
}

impl<T: Copy> vstd::std_specs::convert::FromSpecImpl<&T> for ByteBuf<T> {
    closed spec fn obeys_from_spec() -> bool {
        true
    }

    closed spec fn from_spec(v: &T) -> Self {
        ByteBuf { inner: *v }
    }
}

impl<T: Copy> From<&mut T> for ByteBuf<T> {
    /// Wraps a copy of the storage behind the reference.
    fn from(value: &mut T) -> Self {
        ByteBuf::new(*value)
    }
}

impl<T: Copy> vstd::std_specs::convert::FromSpecImpl<&mut T> for ByteBuf<T> {
    closed spec fn obeys_from_spec() -> bool {
        true
    }

    closed spec fn from_spec(v: &mut T) -> Self {
        ByteBuf { inner: *v }
    }
}

impl<T: Copy> From<&ByteBuf<T>> for ByteBuf<T> {
    /// Copies the referenced view.
    fn from(value: &ByteBuf<T>) -> Self {
        ByteBuf { inner: value.inner }
    }
}

impl<T: Copy> vstd::std_specs::convert::FromSpecImpl<&ByteBuf<T>> for ByteBuf<T> {
    closed spec fn obeys_from_spec() -> bool {
        true
    }

    closed spec fn from_spec(v: &ByteBuf<T>) -> Self {
        *v
    }
}

impl<T: Copy> From<&mut ByteBuf<T>> for ByteBuf<T> {
    /// Copies the view behind the reference, as it stands at the call.
    fn from(value: &mut ByteBuf<T>) -> Self {
        ByteBuf { inner: value.inner }
    }
}

impl<T: Copy> vstd::std_specs::convert::FromSpecImpl<&mut ByteBuf<T>> for ByteBuf<T> {
    closed spec fn obeys_from_spec() -> bool {
        true
    }

    closed spec fn from_spec(v: &mut ByteBuf<T>) -> Self {
        *v
    }
}

impl<T: core::default::Default> core::default::Default for ByteBuf<T> {
    /// Wraps a default-constructed storage.
    fn default() -> Self {
        ByteBuf::new(core::default::Default::default())
    }
}

/// Law: of two writes into the same buffer, the later lands on top, and
/// the earlier still reads back whenever the two fields do not overlap.
pub proof fn lemma_writes_apply_in_order<A: ReadBytes, B: ReadBytes>(
    s: Seq<u8>,
    pa: int,
    a: A,
    pb: int,
    b: B,
)
    requires
        0 <= pa,
        pa + A::spec_width() <= s.len(),
        0 <= pb,
        pb + B::spec_width() <= s.len(),
    ensures
        B::from_le(
            spliced(spliced(s, pa, a.le_rep()), pb, b.le_rep()).subrange(
                pb,
                pb + B::spec_width(),
            ),
        ) == b,
        pa + A::spec_width() <= pb ==> A::from_le(
            spliced(spliced(s, pa, a.le_rep()), pb, b.le_rep()).subrange(
                pa,
                pa + A::spec_width(),
            ),
        ) == a,
{
    a.lemma_rep_wf();
    b.lemma_rep_wf();
    a.lemma_round_trip();
    b.lemma_round_trip();
    let s1 = spliced(s, pa, a.le_rep());
    let s2 = spliced(s1, pb, b.le_rep());
    assert(s1.len() == s.len());
    assert(s2.subrange(pb, pb + B::spec_width()) =~= b.le_rep());
    if pa + A::spec_width() <= pb {
        assert(s2.subrange(pa, pa + A::spec_width()) =~= a.le_rep());
    }
}

} // verus!
