//! Binary decoding primitives: big-endian integer reads, the `FromData`
//! capability for fixed-size wire values, lazy fixed-stride array views, a
//! sequential cursor, and offsets that resolve against a declaring buffer.
//!
//! Every operation is bounds-checked against the current sub-buffer and fails
//! by returning `None`; nothing here panics on malformed input.

use vstd::prelude::*;

verus! {

/// The unsigned big-endian 16-bit integer stored at `off`.
pub open spec fn be16(d: Seq<u8>, off: int) -> u16 {
    ((d[off] as int) * 0x100 + (d[off + 1] as int)) as u16
}

/// The unsigned big-endian 24-bit integer stored at `off`.
pub open spec fn be24(d: Seq<u8>, off: int) -> u32 {
    ((d[off] as int) * 0x10000 + (d[off + 1] as int) * 0x100 + (d[off + 2] as int)) as u32
}

/// The unsigned big-endian 32-bit integer stored at `off`.
pub open spec fn be32(d: Seq<u8>, off: int) -> u32 {
    ((d[off] as int) * 0x1000000 + (d[off + 1] as int) * 0x10000 + (d[off + 2] as int) * 0x100
        + (d[off + 3] as int)) as u32
}

/// The big-endian 16-bit integer at `off`, reinterpreted as two's complement.
pub open spec fn be16_signed(d: Seq<u8>, off: int) -> i16 {
    if be16(d, off) < 0x8000 {
        be16(d, off) as i16
    } else {
        (be16(d, off) - 0x10000) as i16
    }
}

/// A value decodable from a fixed-width byte window.
///
/// A decodable type declares its on-wire width and a total decoding function
/// over windows of exactly that width; the executable `parse` rejects windows
/// of any other width by returning `None`.
pub trait FromData: Sized {
    /// The on-wire width in bytes.
    spec fn spec_size() -> int;

    /// The value encoded by a window of exactly `spec_size` bytes.
    spec fn spec_parse(data: Seq<u8>) -> Self;

    /// Wire widths are small and positive.
    proof fn size_facts()
        ensures
            1 <= Self::spec_size() <= 8,
    ;

    /// The on-wire width as a machine integer.
    fn size() -> (r: usize)
        ensures
            r as int == Self::spec_size(),
    ;

    /// Decodes a window of exactly `spec_size` bytes; any other width fails.
    fn parse(data: &[u8]) -> (r: Option<Self>)
        ensures
            r == (if data@.len() == Self::spec_size() {
                Some(Self::spec_parse(data@))
            } else {
                None::<Self>
            }),
    ;
}

impl FromData for u8 {
    open spec fn spec_size() -> int {
        1
    }

    open spec fn spec_parse(data: Seq<u8>) -> u8 {
        data[0]
    }

    proof fn size_facts() {
    }

    fn size() -> usize {
        1
    }

    fn parse(data: &[u8]) -> (r: Option<u8>) {
        if data.len() == 1 {
            Some(*vstd::slice::slice_index_get(data, 0))
        } else {
            None
        }
    }
}

impl FromData for i8 {
    open spec fn spec_size() -> int {
        1
    }

    open spec fn spec_parse(data: Seq<u8>) -> i8 {
        if data[0] < 0x80 {
            data[0] as i8
        } else {
            (data[0] - 0x100) as i8
        }
    }

    proof fn size_facts() {
    }

    fn size() -> usize {
        1
    }

    fn parse(data: &[u8]) -> (r: Option<i8>) {
        if data.len() == 1 {
            let b = *vstd::slice::slice_index_get(data, 0);
            if b < 0x80 {
                Some(b as i8)
            } else {
                Some((b as i16 - 0x100) as i8)
            }
        } else {
            None
        }
    }
}

impl FromData for u16 {
    open spec fn spec_size() -> int {
        2
    }

    open spec fn spec_parse(data: Seq<u8>) -> u16 {
        be16(data, 0)
    }

    proof fn size_facts() {
    }

    fn size() -> usize {
        2
    }

    fn parse(data: &[u8]) -> (r: Option<u16>) {
        if data.len() == 2 {
            let b0 = *vstd::slice::slice_index_get(data, 0);
            let b1 = *vstd::slice::slice_index_get(data, 1);
            Some((b0 as u16) * 0x100 + (b1 as u16))
        } else {
            None
        }
    }
}

impl FromData for i16 {
    open spec fn spec_size() -> int {
        2
    }

    open spec fn spec_parse(data: Seq<u8>) -> i16 {
        be16_signed(data, 0)
    }

    proof fn size_facts() {
    }

    fn size() -> usize {
        2
    }

    fn parse(data: &[u8]) -> (r: Option<i16>) {
        match u16::parse(data) {
            Some(n) => {
                if n < 0x8000 {
                    Some(n as i16)
                } else {
                    Some((n as i32 - 0x10000) as i16)
                }
            },
            None => None,
        }
    }
}

impl FromData for u32 {
    open spec fn spec_size() -> int {
        4
    }

    open spec fn spec_parse(data: Seq<u8>) -> u32 {
        be32(data, 0)
    }

    proof fn size_facts() {
    }

    fn size() -> usize {
        4
    }

    fn parse(data: &[u8]) -> (r: Option<u32>) {
        if data.len() == 4 {
            let b0 = *vstd::slice::slice_index_get(data, 0);
            let b1 = *vstd::slice::slice_index_get(data, 1);
            let b2 = *vstd::slice::slice_index_get(data, 2);
            let b3 = *vstd::slice::slice_index_get(data, 3);
            Some(
                (b0 as u32) * 0x1000000 + (b1 as u32) * 0x10000 + (b2 as u32) * 0x100 + (
                b3 as u32),
            )
        } else {
            None
        }
    }
}

impl FromData for i32 {
    open spec fn spec_size() -> int {
        4
    }

    open spec fn spec_parse(data: Seq<u8>) -> i32 {
        if be32(data, 0) < 0x8000_0000 {
            be32(data, 0) as i32
        } else {
            (be32(data, 0) - 0x1_0000_0000) as i32
        }
    }

    proof fn size_facts() {
    }

    fn size() -> usize {
        4
    }

    fn parse(data: &[u8]) -> (r: Option<i32>) {
        match u32::parse(data) {
            Some(n) => {
                if n < 0x8000_0000 {
                    Some(n as i32)
                } else {
                    Some((n as i64 - 0x1_0000_0000) as i32)
                }
            },
            None => None,
        }
    }
}

/// An unsigned 24-bit integer, widened to 32 bits on decode.
#[derive(Clone, Copy, PartialEq, Eq, Structural, Debug)]
pub struct U24(pub u32);

impl FromData for U24 {
    open spec fn spec_size() -> int {
        3
    }

    open spec fn spec_parse(data: Seq<u8>) -> U24 {
        U24(be24(data, 0))
    }

    proof fn size_facts() {
    }

    fn size() -> usize {
        3
    }

    fn parse(data: &[u8]) -> (r: Option<U24>) {
        if data.len() == 3 {
            let b0 = *vstd::slice::slice_index_get(data, 0);
            let b1 = *vstd::slice::slice_index_get(data, 1);
            let b2 = *vstd::slice::slice_index_get(data, 2);
            Some(U24((b0 as u32) * 0x10000 + (b1 as u32) * 0x100 + (b2 as u32)))
        } else {
            None
        }
    }
}

/// A 16-bit signed fixed-point number with 14 bits of fraction (2.14),
/// carried as its raw wire value.
#[derive(Clone, Copy, PartialEq, Eq, Structural, Debug)]
pub struct F2DOT14(pub i16);

impl FromData for F2DOT14 {
    open spec fn spec_size() -> int {
        2
    }

    open spec fn spec_parse(data: Seq<u8>) -> F2DOT14 {
        F2DOT14(be16_signed(data, 0))
    }

    proof fn size_facts() {
    }

    fn size() -> usize {
        2
    }

    fn parse(data: &[u8]) -> (r: Option<F2DOT14>) {
        match i16::parse(data) {
            Some(n) => Some(F2DOT14(n)),
            None => None,
        }
    }
}

/// Fits `(i + 1)` stride-`s` windows into a buffer of `n` bytes whenever `i`
/// lies below the element count `n / s`.
pub proof fn lemma_stride_window(i: int, s: int, n: int)
    requires
        0 <= i,
        1 <= s,
        0 <= n,
        i < n / s,
    ensures
        0 <= i * s,
        i * s + s <= n,
{
    vstd::arithmetic::mul::lemma_mul_nonnegative(i, s);
    vstd::arithmetic::mul::lemma_mul_inequality(i + 1, n / s, s);
    vstd::arithmetic::div_mod::lemma_fundamental_div_mod(n, s);
    vstd::arithmetic::div_mod::lemma_mod_bound(n, s);
    assert((i + 1) * s == i * s + s) by {
        vstd::arithmetic::mul::lemma_mul_is_distributive_add_other_way(s, i, 1);
    };
}

/// An array of `count` elements of stride `s` spans exactly `count * s` bytes.
pub proof fn lemma_exact_count(count: int, s: int)
    requires
        0 <= count < 0x1_0000_0000,
        1 <= s,
    ensures
        (count * s) / s == count,
        count * s >= 0,
{
    vstd::arithmetic::div_mod::lemma_div_by_multiple(count, s);
    vstd::arithmetic::mul::lemma_mul_nonnegative(count, s);
}

/// A slice-like view over raw bytes that decodes an element only on access.
///
/// The element count is the byte length divided by the element stride, reduced
/// to the 16-bit index space; bytes past the last whole stride are ignored.
pub struct LazyArray16<'a, T> {
    data: &'a [u8],
    data_type: core::marker::PhantomData<T>,
}

impl<'a, T> Clone for LazyArray16<'a, T> {
    fn clone(&self) -> (r: Self)
        ensures
            r == *self,
    {
        LazyArray16 { data: self.data, data_type: core::marker::PhantomData }
    }
}

impl<'a, T> Copy for LazyArray16<'a, T> {

}

impl<'a, T> View for LazyArray16<'a, T> {
    type V = Seq<u8>;

    closed spec fn view(&self) -> Seq<u8> {
        self.data@
    }
}

impl<'a, T: FromData> LazyArray16<'a, T> {
    /// The number of whole elements the underlying bytes hold, as a 16-bit count.
    pub open spec fn spec_len(&self) -> int {
        (self@.len() as int / T::spec_size()) % 0x10000
    }

    /// The element decoded from the `i`-th stride-aligned window.
    pub open spec fn spec_get(&self, i: int) -> T {
        T::spec_parse(self@.subrange(i * T::spec_size(), i * T::spec_size() + T::spec_size()))
    }

    /// Wraps raw bytes as a lazy element view.
    pub fn new(data: &'a [u8]) -> (r: Self)
        ensures
            r@ == data@,
    {
        LazyArray16 { data, data_type: core::marker::PhantomData }
    }

    /// The array's length.
    pub fn len(&self) -> (r: u16)
        ensures
            r as int == self.spec_len(),
    {
        proof {
            T::size_facts();
            vstd::arithmetic::div_mod::lemma_mod_bound(self@.len() as int / T::spec_size(), 0x10000);
        }
        ((self.data.len() / T::size()) % 0x10000) as u16
    }

    /// Whether the array holds no elements.
    pub fn is_empty(&self) -> (r: bool)
        ensures
            r == (self.spec_len() == 0),
    {
        self.len() == 0
    }

    /// Decodes the value at `index`, absent when `index` is out of range.
    pub fn get(&self, index: u16) -> (r: Option<T>)
        ensures
            r == (if (index as int) < self.spec_len() {
                Some(self.spec_get(index as int))
            } else {
                None::<T>
            }),
    {
        proof {
            T::size_facts();
        }
        if index < self.len() {
            let size = T::size();
            let n = self.data.len();
            proof {
                vstd::arithmetic::div_mod::lemma_mod_decreases(
                    (self@.len() as int / T::spec_size()) as nat,
                    0x10000 as nat,
                );
                lemma_stride_window(index as int, T::spec_size(), self@.len() as int);
            }
            let start = (index as usize) * size;
            let window = vstd::slice::slice_subrange(self.data, start, start + size);
            T::parse(window)
        } else {
            None
        }
    }

    /// Decodes the last value, absent when the array is empty.
    pub fn last(&self) -> (r: Option<T>)
        ensures
            r == (if self.spec_len() > 0 {
                Some(self.spec_get(self.spec_len() - 1))
            } else {
                None::<T>
            }),
    {
        let len = self.len();
        if len > 0 {
            self.get(len - 1)
        } else {
            None
        }
    }

    /// Re-slices the array to the element range `[start, end)`, absent when the
    /// byte range it spans leaves the underlying bytes.
    pub fn slice(&self, start: u16, end: u16) -> (r: Option<Self>)
        ensures
            (r is Some) == (start <= end && (end as int) * T::spec_size() <= self@.len()),
            (match r {
                Some(a) => a@ == self@.subrange(
                    (start as int) * T::spec_size(),
                    (end as int) * T::spec_size(),
                ),
                None => start > end || (end as int) * T::spec_size() > self@.len(),
            }),
    {
        proof {
            T::size_facts();
            vstd::arithmetic::mul::lemma_mul_upper_bound(start as int, 0xFFFF, T::spec_size(), 8);
            vstd::arithmetic::mul::lemma_mul_upper_bound(end as int, 0xFFFF, T::spec_size(), 8);
        }
        let size = T::size();
        let byte_start = (start as usize) * size;
        let byte_end = (end as usize) * size;
        if start <= end && byte_end <= self.data.len() {
            proof {
                vstd::arithmetic::mul::lemma_mul_inequality(start as int, end as int, T::spec_size());
            }
            Some(LazyArray16 {
                data: vstd::slice::slice_subrange(self.data, byte_start, byte_end),
                data_type: core::marker::PhantomData,
            })
        } else {
            None
        }
    }
}

/// A decoded element that can be located by an unsigned ordering key, used by
/// the lazy arrays' binary search.
pub trait SearchKey: Sized {
    /// The ordering key of the element.
    spec fn spec_key(&self) -> u64;

    /// The ordering key as a machine integer.
    fn key(&self) -> (r: u64)
        ensures
            r == self.spec_key(),
    ;
}

impl<'a, T: FromData + SearchKey> LazyArray16<'a, T> {
    /// Whether the elements' keys are in ascending order.
    ///
    /// The binary format requires this of record lists; it is assumed, never
    /// re-validated, and the search contracts are conditional on it.
    pub open spec fn spec_sorted_by_key(&self) -> bool {
        forall|i: int, j: int|
            0 <= i <= j < self.spec_len() ==> #[trigger] self.spec_get(i).spec_key()
                <= #[trigger] self.spec_get(j).spec_key()
    }

    /// Whether the elements' keys are in strictly ascending order, as the
    /// binary format demands of tag records.
    pub open spec fn spec_strictly_sorted_by_key(&self) -> bool {
        forall|i: int, j: int|
            0 <= i < j < self.spec_len() ==> #[trigger] self.spec_get(i).spec_key()
                < #[trigger] self.spec_get(j).spec_key()
    }

    /// Binary search for an element equal to `key`.
    ///
    /// A hit is always a real element with that key. On an empty array the
    /// search is absent without decoding anything; on a sorted array a miss
    /// proves no element has the key.
    pub fn binary_search(&self, key: &T) -> (r: Option<(u16, T)>)
        ensures
            (match r {
                Some(p) => (p.0 as int) < self.spec_len() && p.1 == self.spec_get(p.0 as int)
                    && p.1.spec_key() == key.spec_key(),
                None => true,
            }),
            self.spec_len() == 0 ==> r is None,
            self.spec_len() == 1 ==> ((r is Some) <==> self.spec_get(0).spec_key()
                == key.spec_key()),
            self.spec_sorted_by_key() ==> ((r is Some) <==> (exists|i: int|
                0 <= i < self.spec_len() && self.spec_get(i).spec_key() == key.spec_key())),
    {
        self.binary_search_by(key.key())
    }

    /// Binary search for an element whose ordering key equals `key`.
    pub fn binary_search_by(&self, key: u64) -> (r: Option<(u16, T)>)
        ensures
            (match r {
                Some(p) => (p.0 as int) < self.spec_len() && p.1 == self.spec_get(p.0 as int)
                    && p.1.spec_key() == key,
                None => true,
            }),
            self.spec_len() == 0 ==> r is None,
            self.spec_len() == 1 ==> ((r is Some) <==> self.spec_get(0).spec_key() == key),
            self.spec_sorted_by_key() ==> ((r is Some) <==> (exists|i: int|
                0 <= i < self.spec_len() && self.spec_get(i).spec_key() == key)),
    {
        let mut size = self.len();
        if size == 0 {
            return None;
        }
        let mut base: u16 = 0;
        while size > 1
            invariant
                1 <= size as int,
                base as int + size as int <= self.spec_len(),
                self.spec_len() < 0x10000,
                (self.spec_sorted_by_key() && (exists|i: int|
                    0 <= i < self.spec_len() && self.spec_get(i).spec_key() == key)) ==> (
                exists|i: int|
                    base as int <= i < base as int + size as int && self.spec_get(i).spec_key()
                        == key),
            decreases size as int,
        {
            let ghost base0 = base as int;
            let ghost size0 = size as int;
            let half = size / 2;
            let mid = base + half;
            let v = self.get(mid).unwrap();
            let k = v.key();
            proof {
                assert(self.spec_get(mid as int).spec_key() == k);
            }
            if k > key {
                size = size - half;
                proof {
                    if self.spec_sorted_by_key() && (exists|i: int|
                        0 <= i < self.spec_len() && self.spec_get(i).spec_key() == key) {
                        let w = choose|i: int|
                            base0 <= i < base0 + size0 && self.spec_get(i).spec_key() == key;
                        assert(w < mid as int) by {
                            if w >= mid as int {
                                assert(self.spec_get(mid as int).spec_key()
                                    <= self.spec_get(w).spec_key());
                            }
                        };
                    }
                }
            } else {
                base = mid;
                size = size - half;
                proof {
                    if self.spec_sorted_by_key() && (exists|i: int|
                        0 <= i < self.spec_len() && self.spec_get(i).spec_key() == key) {
                        let w = choose|i: int|
                            base0 <= i < base0 + size0 && self.spec_get(i).spec_key() == key;
                        if w < mid as int {
                            assert(self.spec_get(w).spec_key()
                                <= self.spec_get(mid as int).spec_key());
                            assert(self.spec_get(mid as int).spec_key() == key);
                        }
                    }
                }
            }
        }
        let v = self.get(base).unwrap();
        let k = v.key();
        proof {
            assert(self.spec_get(base as int).spec_key() == k);
            if self.spec_len() == 1 {
                assert(base == 0);
            }
        }
        if k == key {
            Some((base, v))
        } else {
            None
        }
    }
}

/// An iterator over a `LazyArray16`, decoding one element per step.
pub struct LazyArrayIter16<'a, T> {
    data: LazyArray16<'a, T>,
    index: u16,
}

impl<'a, T> Clone for LazyArrayIter16<'a, T> {
    fn clone(&self) -> (r: Self)
        ensures
            r == *self,
    {
        LazyArrayIter16 { data: self.data, index: self.index }
    }
}

impl<'a, T> Copy for LazyArrayIter16<'a, T> {

}

impl<'a, T: FromData> LazyArrayIter16<'a, T> {
    /// The array being walked.
    pub closed spec fn spec_array(&self) -> LazyArray16<'a, T> {
        self.data
    }

    /// The position of the next element.
    pub closed spec fn spec_pos(&self) -> int {
        self.index as int
    }

    /// Decodes the element at the current position and steps past it.
    pub fn next(&mut self) -> (r: Option<T>)
        ensures
            final(self).spec_array() == old(self).spec_array(),
            old(self).spec_pos() < 0xFFFF ==> final(self).spec_pos() == old(self).spec_pos() + 1
                && r == (if old(self).spec_pos() < old(self).spec_array().spec_len() {
                Some(old(self).spec_array().spec_get(old(self).spec_pos()))
            } else {
                None::<T>
            }),
            old(self).spec_pos() == 0xFFFF ==> r is None && final(self).spec_pos() == old(self).spec_pos(),
    {
        if self.index < 0xFFFF {
            let idx = self.index;
            self.index = self.index + 1;
            self.data.get(idx)
        } else {
            None
        }
    }

    /// Decodes the element at position `n` without moving the iterator.
    pub fn nth(&self, n: usize) -> (r: Option<T>)
        ensures
            r == (if n <= 0xFFFF && (n as int) < self.spec_array().spec_len() {
                Some(self.spec_array().spec_get(n as int))
            } else {
                None::<T>
            }),
    {
        if n <= 0xFFFF {
            self.data.get(n as u16)
        } else {
            None
        }
    }
}

impl<'a, T: FromData> LazyArray16<'a, T> {
    /// Starts an iterator at the first element.
    pub fn iter(&self) -> (r: LazyArrayIter16<'a, T>)
        ensures
            r.spec_array() == *self,
            r.spec_pos() == 0,
    {
        LazyArrayIter16 { data: *self, index: 0 }
    }
}

/// A lazy fixed-stride element view with a 32-bit index space.
pub struct LazyArray32<'a, T> {
    data: &'a [u8],
    data_type: core::marker::PhantomData<T>,
}

impl<'a, T> Clone for LazyArray32<'a, T> {
    fn clone(&self) -> (r: Self)
        ensures
            r == *self,
    {
        LazyArray32 { data: self.data, data_type: core::marker::PhantomData }
    }
}

impl<'a, T> Copy for LazyArray32<'a, T> {

}

impl<'a, T> View for LazyArray32<'a, T> {
    type V = Seq<u8>;

    closed spec fn view(&self) -> Seq<u8> {
        self.data@
    }
}

impl<'a, T: FromData> LazyArray32<'a, T> {
    /// The number of whole elements the underlying bytes hold, as a 32-bit count.
    pub open spec fn spec_len(&self) -> int {
        (self@.len() as int / T::spec_size()) % 0x1_0000_0000
    }

    /// The element decoded from the `i`-th stride-aligned window.
    pub open spec fn spec_get(&self, i: int) -> T {
        T::spec_parse(self@.subrange(i * T::spec_size(), i * T::spec_size() + T::spec_size()))
    }

    /// Wraps raw bytes as a lazy element view.
    pub fn new(data: &'a [u8]) -> (r: Self)
        ensures
            r@ == data@,
    {
        LazyArray32 { data, data_type: core::marker::PhantomData }
    }

    /// The array's length.
    pub fn len(&self) -> (r: u32)
        ensures
            r as int == self.spec_len(),
    {
        proof {
            T::size_facts();
            vstd::arithmetic::div_mod::lemma_mod_bound(
                self@.len() as int / T::spec_size(),
                0x1_0000_0000,
            );
        }
        let n = self.data.len();
        let size = T::size();
        (((n as u64) / (size as u64)) % 0x1_0000_0000u64) as u32
    }

    /// Decodes the value at `index`, absent when `index` is out of range.
    pub fn get(&self, index: u32) -> (r: Option<T>)
        ensures
            r == (if (index as int) < self.spec_len() {
                Some(self.spec_get(index as int))
            } else {
                None::<T>
            }),
    {
        proof {
            T::size_facts();
        }
        if index < self.len() {
            let size = T::size();
            let n = self.data.len();
            proof {
                vstd::arithmetic::div_mod::lemma_mod_decreases(
                    (self@.len() as int / T::spec_size()) as nat,
                    0x1_0000_0000 as nat,
                );
                lemma_stride_window(index as int, T::spec_size(), self@.len() as int);
            }
            let start = (index as usize) * size;
            let window = vstd::slice::slice_subrange(self.data, start, start + size);
            T::parse(window)
        } else {
            None
        }
    }
}

impl<'a, T: FromData + SearchKey> LazyArray32<'a, T> {
    /// Whether the elements' keys are in ascending order; assumed of the
    /// format, never re-validated.
    pub open spec fn spec_sorted_by_key(&self) -> bool {
        forall|i: int, j: int|
            0 <= i <= j < self.spec_len() ==> #[trigger] self.spec_get(i).spec_key()
                <= #[trigger] self.spec_get(j).spec_key()
    }

    /// Binary search for an element equal to `key`; see
    /// `LazyArray16::binary_search`.
    pub fn binary_search(&self, key: &T) -> (r: Option<(u32, T)>)
        ensures
            (match r {
                Some(p) => (p.0 as int) < self.spec_len() && p.1 == self.spec_get(p.0 as int)
                    && p.1.spec_key() == key.spec_key(),
                None => true,
            }),
            self.spec_len() == 0 ==> r is None,
            self.spec_len() == 1 ==> ((r is Some) <==> self.spec_get(0).spec_key()
                == key.spec_key()),
            self.spec_sorted_by_key() ==> ((r is Some) <==> (exists|i: int|
                0 <= i < self.spec_len() && self.spec_get(i).spec_key() == key.spec_key())),
    {
        self.binary_search_by(key.key())
    }

    /// Binary search for an element whose ordering key equals `key`.
    pub fn binary_search_by(&self, key: u64) -> (r: Option<(u32, T)>)
        ensures
            (match r {
                Some(p) => (p.0 as int) < self.spec_len() && p.1 == self.spec_get(p.0 as int)
                    && p.1.spec_key() == key,
                None => true,
            }),
            self.spec_len() == 0 ==> r is None,
            self.spec_len() == 1 ==> ((r is Some) <==> self.spec_get(0).spec_key() == key),
            self.spec_sorted_by_key() ==> ((r is Some) <==> (exists|i: int|
                0 <= i < self.spec_len() && self.spec_get(i).spec_key() == key)),
    {
        let mut size = self.len();
        if size == 0 {
            return None;
        }
        let mut base: u32 = 0;
        while size > 1
            invariant
                1 <= size as int,
                base as int + size as int <= self.spec_len(),
                self.spec_len() < 0x1_0000_0000,
                (self.spec_sorted_by_key() && (exists|i: int|
                    0 <= i < self.spec_len() && self.spec_get(i).spec_key() == key)) ==> (
                exists|i: int|
                    base as int <= i < base as int + size as int && self.spec_get(i).spec_key()
                        == key),
            decreases size as int,
        {
            let ghost base0 = base as int;
            let ghost size0 = size as int;
            let half = size / 2;
            let mid = base + half;
            let v = self.get(mid).unwrap();
            let k = v.key();
            proof {
                assert(self.spec_get(mid as int).spec_key() == k);
            }
            if k > key {
                size = size - half;
                proof {
                    if self.spec_sorted_by_key() && (exists|i: int|
                        0 <= i < self.spec_len() && self.spec_get(i).spec_key() == key) {
                        let w = choose|i: int|
                            base0 <= i < base0 + size0 && self.spec_get(i).spec_key() == key;
                        assert(w < mid as int) by {
                            if w >= mid as int {
                                assert(self.spec_get(mid as int).spec_key()
                                    <= self.spec_get(w).spec_key());
                            }
                        };
                    }
                }
            } else {
                base = mid;
                size = size - half;
                proof {
                    if self.spec_sorted_by_key() && (exists|i: int|
                        0 <= i < self.spec_len() && self.spec_get(i).spec_key() == key) {
                        let w = choose|i: int|
                            base0 <= i < base0 + size0 && self.spec_get(i).spec_key() == key;
                        if w < mid as int {
                            assert(self.spec_get(w).spec_key()
                                <= self.spec_get(mid as int).spec_key());
                            assert(self.spec_get(mid as int).spec_key() == key);
                        }
                    }
                }
            }
        }
        let v = self.get(base).unwrap();
        let k = v.key();
        proof {
            assert(self.spec_get(base as int).spec_key() == k);
            if self.spec_len() == 1 {
                assert(base == 0);
            }
        }
        if k == key {
            Some((base, v))
        } else {
            None
        }
    }
}

/// An iterator over a `LazyArray32`, decoding one element per step.
pub struct LazyArrayIter32<'a, T> {
    data: LazyArray32<'a, T>,
    index: u32,
}

impl<'a, T> Clone for LazyArrayIter32<'a, T> {
    fn clone(&self) -> (r: Self)
        ensures
            r == *self,
    {
        LazyArrayIter32 { data: self.data, index: self.index }
    }
}

impl<'a, T> Copy for LazyArrayIter32<'a, T> {

}

impl<'a, T: FromData> LazyArrayIter32<'a, T> {
    /// The array being walked.
    pub closed spec fn spec_array(&self) -> LazyArray32<'a, T> {
        self.data
    }

    /// The position of the next element.
    pub closed spec fn spec_pos(&self) -> int {
        self.index as int
    }

    /// Decodes the element at the current position and steps past it.
    pub fn next(&mut self) -> (r: Option<T>)
        ensures
            final(self).spec_array() == old(self).spec_array(),
            old(self).spec_pos() < 0xFFFF_FFFF ==> final(self).spec_pos() == old(self).spec_pos()
                + 1 && r == (if old(self).spec_pos() < old(self).spec_array().spec_len() {
                Some(old(self).spec_array().spec_get(old(self).spec_pos()))
            } else {
                None::<T>
            }),
            old(self).spec_pos() == 0xFFFF_FFFF ==> r is None && final(self).spec_pos() == old(self).spec_pos(),
    {
        if self.index < 0xFFFF_FFFF {
            let idx = self.index;
            self.index = self.index + 1;
            self.data.get(idx)
        } else {
            None
        }
    }

    /// The number of elements in the underlying array.
    pub fn count(&self) -> (r: u32)
        ensures
            r as int == self.spec_array().spec_len(),
    {
        self.data.len()
    }

    /// Decodes the element at position `n` without moving the iterator.
    pub fn nth(&self, n: usize) -> (r: Option<T>)
        ensures
            r == (if n <= 0xFFFF_FFFF && (n as int) < self.spec_array().spec_len() {
                Some(self.spec_array().spec_get(n as int))
            } else {
                None::<T>
            }),
    {
        if n as u64 <= 0xFFFF_FFFFu64 {
            self.data.get(n as u32)
        } else {
            None
        }
    }
}

impl<'a, T: FromData> LazyArray32<'a, T> {
    /// Starts an iterator at the first element.
    pub fn iter(&self) -> (r: LazyArrayIter32<'a, T>)
        ensures
            r.spec_array() == *self,
            r.spec_pos() == 0,
    {
        LazyArrayIter32 { data: *self, index: 0 }
    }
}

/// A sequential read cursor over a borrowed byte buffer.
///
/// Reads fail closed: when the requested range leaves the buffer the read
/// yields absence and the cursor keeps its position.
#[derive(Clone, Copy)]
pub struct Stream<'a> {
    data: &'a [u8],
    offset: usize,
}

impl<'a> Stream<'a> {
    /// The underlying bytes.
    pub closed spec fn spec_data(&self) -> Seq<u8> {
        self.data@
    }

    /// The cursor position.
    pub closed spec fn spec_offset(&self) -> int {
        self.offset as int
    }

    /// Starts a cursor at the beginning of `data`.
    pub fn new(data: &'a [u8]) -> (r: Self)
        ensures
            r.spec_data() == data@,
            r.spec_offset() == 0,
    {
        Stream { data, offset: 0 }
    }

    /// Starts a cursor at `offset`, absent when `offset` lies past the end.
    pub fn new_at(data: &'a [u8], offset: usize) -> (r: Option<Self>)
        ensures
            (r is Some) == (offset <= data@.len()),
            (match r {
                Some(s) => s.spec_data() == data@ && s.spec_offset() == offset,
                None => true,
            }),
    {
        if offset <= data.len() {
            Some(Stream { data, offset })
        } else {
            None
        }
    }

    /// Whether the cursor is at or past the end of the buffer.
    pub fn at_end(&self) -> (r: bool)
        ensures
            r == (self.spec_offset() >= self.spec_data().len()),
    {
        self.offset >= self.data.len()
    }

    /// Moves the cursor to the end of the buffer.
    pub fn jump_to_end(&mut self)
        ensures
            final(self).spec_data() == old(self).spec_data(),
            final(self).spec_offset() == old(self).spec_data().len(),
    {
        self.offset = self.data.len();
    }

    /// The cursor position.
    pub fn offset(&self) -> (r: usize)
        ensures
            r as int == self.spec_offset(),
    {
        self.offset
    }

    /// The bytes from the cursor position to the end of the buffer, absent
    /// when the cursor lies past the end.
    pub fn tail(&self) -> (r: Option<&'a [u8]>)
        ensures
            (r is Some) == (self.spec_offset() <= self.spec_data().len()),
            (match r {
                Some(b) => b@ == self.spec_data().subrange(
                    self.spec_offset(),
                    self.spec_data().len() as int,
                ),
                None => true,
            }),
    {
        if self.offset <= self.data.len() {
            Some(vstd::slice::slice_subrange(self.data, self.offset, self.data.len()))
        } else {
            None
        }
    }

    /// Advances past one value of `T` without decoding it.
    pub fn skip<T: FromData>(&mut self)
        requires
            old(self).spec_offset() + T::spec_size() <= usize::MAX,
        ensures
            final(self).spec_data() == old(self).spec_data(),
            final(self).spec_offset() == old(self).spec_offset() + T::spec_size(),
    {
        proof {
            T::size_facts();
        }
        self.advance(T::size());
    }

    /// Advances the cursor by `len` bytes, unchecked against the buffer end.
    pub fn advance(&mut self, len: usize)
        requires
            old(self).spec_offset() + len <= usize::MAX,
        ensures
            final(self).spec_data() == old(self).spec_data(),
            final(self).spec_offset() == old(self).spec_offset() + len,
    {
        self.offset = self.offset + len;
    }

    /// Advances the cursor by `len` bytes, absent without moving when that
    /// would pass the buffer end.
    pub fn advance_checked(&mut self, len: usize) -> (r: Option<()>)
        ensures
            final(self).spec_data() == old(self).spec_data(),
            (r is Some) == (old(self).spec_offset() + len <= old(self).spec_data().len()),
            (match r {
                Some(_) => final(self).spec_offset() == old(self).spec_offset() + len,
                None => final(self).spec_offset() == old(self).spec_offset(),
            }),
    {
        if len <= self.data.len() && self.offset <= self.data.len() - len {
            self.advance(len);
            Some(())
        } else {
            None
        }
    }

    /// Decodes one value of `T` at the cursor and advances past it; absent,
    /// without moving, when fewer than `T`'s width of bytes remain.
    pub fn read<T: FromData>(&mut self) -> (r: Option<T>)
        ensures
            final(self).spec_data() == old(self).spec_data(),
            old(self).spec_offset() + T::spec_size() <= old(self).spec_data().len() ==> r == Some(
                T::spec_parse(
                    old(self).spec_data().subrange(
                        old(self).spec_offset(),
                        old(self).spec_offset() + T::spec_size(),
                    ),
                ),
            ) && final(self).spec_offset() == old(self).spec_offset() + T::spec_size(),
            old(self).spec_offset() + T::spec_size() > old(self).spec_data().len() ==> r is None
                && final(self).spec_offset() == old(self).spec_offset(),
    {
        proof {
            T::size_facts();
        }
        let size = T::size();
        match self.read_bytes(size) {
            Some(b) => T::parse(b),
            None => None,
        }
    }

    /// Decodes one value of `T` at `offset` in `data`, without a cursor.
    pub fn read_at<T: FromData>(data: &[u8], offset: usize) -> (r: Option<T>)
        ensures
            r == (if offset + T::spec_size() <= data@.len() {
                Some(
                    T::spec_parse(
                        data@.subrange(offset as int, offset as int + T::spec_size()),
                    ),
                )
            } else {
                None::<T>
            }),
    {
        proof {
            T::size_facts();
        }
        let size = T::size();
        if size <= data.len() && offset <= data.len() - size {
            T::parse(vstd::slice::slice_subrange(data, offset, offset + size))
        } else {
            None
        }
    }

    /// Reads `len` raw bytes and advances past them; absent, without moving,
    /// when fewer remain.
    pub fn read_bytes(&mut self, len: usize) -> (r: Option<&'a [u8]>)
        ensures
            final(self).spec_data() == old(self).spec_data(),
            old(self).spec_offset() + len <= old(self).spec_data().len() ==> (match r {
                Some(b) => b@ == old(self).spec_data().subrange(
                    old(self).spec_offset(),
                    old(self).spec_offset() + len,
                ) && final(self).spec_offset() == old(self).spec_offset() + len,
                None => false,
            }),
            old(self).spec_offset() + len > old(self).spec_data().len() ==> r is None && final(self).spec_offset() == old(self).spec_offset(),
    {
        if len <= self.data.len() && self.offset <= self.data.len() - len {
            let b = vstd::slice::slice_subrange(self.data, self.offset, self.offset + len);
            self.offset = self.offset + len;
            Some(b)
        } else {
            None
        }
    }

    /// Reads `count` elements of `T` as a lazy array and advances past their
    /// bytes; absent, without moving, when fewer remain.
    pub fn read_array16<T: FromData>(&mut self, count: u16) -> (r: Option<LazyArray16<'a, T>>)
        ensures
            final(self).spec_data() == old(self).spec_data(),
            old(self).spec_offset() + (count as int) * T::spec_size() <= old(self).spec_data().len() ==> (match r {
                Some(a) => a@ == old(self).spec_data().subrange(
                    old(self).spec_offset(),
                    old(self).spec_offset() + (count as int) * T::spec_size(),
                ) && a.spec_len() == count as int && final(self).spec_offset() == old(self).spec_offset() + (count as int) * T::spec_size(),
                None => false,
            }),
            old(self).spec_offset() + (count as int) * T::spec_size() > old(self).spec_data().len() ==> r is None && final(self).spec_offset() == old(self).spec_offset(),
    {
        proof {
            T::size_facts();
            vstd::arithmetic::mul::lemma_mul_upper_bound(count as int, 0xFFFF, T::spec_size(), 8);
        }
        let len_bytes = (count as usize) * T::size();
        match self.read_bytes(len_bytes) {
            Some(b) => {
                proof {
                    lemma_exact_count(count as int, T::spec_size());
                    vstd::arithmetic::div_mod::lemma_small_mod(count as nat, 0x10000 as nat);
                }
                Some(LazyArray16::new(b))
            },
            None => None,
        }
    }

    /// Reads `count` elements of `T` as a 32-bit-indexed lazy array and
    /// advances past their bytes; absent, without moving, when fewer remain.
    pub fn read_array32<T: FromData>(&mut self, count: u32) -> (r: Option<LazyArray32<'a, T>>)
        ensures
            final(self).spec_data() == old(self).spec_data(),
            old(self).spec_offset() + (count as int) * T::spec_size() <= old(self).spec_data().len() ==> (match r {
                Some(a) => a@ == old(self).spec_data().subrange(
                    old(self).spec_offset(),
                    old(self).spec_offset() + (count as int) * T::spec_size(),
                ) && a.spec_len() == count as int && final(self).spec_offset() == old(self).spec_offset() + (count as int) * T::spec_size(),
                None => false,
            }),
            old(self).spec_offset() + (count as int) * T::spec_size() > old(self).spec_data().len() ==> r is None && final(self).spec_offset() == old(self).spec_offset(),
    {
        proof {
            T::size_facts();
            vstd::arithmetic::mul::lemma_mul_upper_bound(
                count as int,
                0xFFFF_FFFF,
                T::spec_size(),
                8,
            );
            vstd::arithmetic::mul::lemma_mul_nonnegative(count as int, T::spec_size());
        }
        let need = (count as u64) * (T::size() as u64);
        if self.offset <= self.data.len() {
            let avail = (self.data.len() - self.offset) as u64;
            if need <= avail {
                let len_bytes = need as usize;
                match self.read_bytes(len_bytes) {
                    Some(b) => {
                        proof {
                            lemma_exact_count(count as int, T::spec_size());
                            vstd::arithmetic::div_mod::lemma_small_mod(
                                count as nat,
                                0x1_0000_0000 as nat,
                            );
                        }
                        Some(LazyArray32::new(b))
                    },
                    None => None,
                }
            } else {
                None
            }
        } else {
            None
        }
    }

    /// Reads `count` offsets as an array resolving against `data`; absent,
    /// without moving, when fewer than `count` offsets' bytes remain.
    pub fn read_offsets16(&mut self, count: u16, data: &'a [u8]) -> (r: Option<
        Offsets16<'a, Offset16>,
    >)
        ensures
            final(self).spec_data() == old(self).spec_data(),
            old(self).spec_offset() + (count as int) * 2 <= old(self).spec_data().len() ==> (
            match r {
                Some(o) => o.spec_base() == data@ && o.spec_offsets() == old(self).spec_data().subrange(
                    old(self).spec_offset(),
                    old(self).spec_offset() + (count as int) * 2,
                ) && o.spec_len() == count as int && final(self).spec_offset() == old(self).spec_offset() + (count as int) * 2,
                None => false,
            }),
            old(self).spec_offset() + (count as int) * 2 > old(self).spec_data().len() ==> r
                is None && final(self).spec_offset() == old(self).spec_offset(),
    {
        match self.read_array16::<Offset16>(count) {
            Some(offsets) => Some(Offsets16 { data, offsets }),
            None => None,
        }
    }
}

/// An integer byte distance from the start of a declaring buffer; the value
/// `0` is the sentinel for "no target".
pub trait Offset: Sized {
    /// The byte distance.
    spec fn spec_value(&self) -> int;

    /// The byte distance as a machine integer.
    fn to_usize(&self) -> (r: usize)
        ensures
            r as int == self.spec_value(),
    ;

    /// Whether this is the null sentinel.
    fn is_null(&self) -> (r: bool)
        ensures
            r == (self.spec_value() == 0),
    ;
}

/// A 16-bit offset from the start of a declaring buffer.
#[derive(Clone, Copy, PartialEq, Eq, Structural, Debug)]
pub struct Offset16(pub u16);

impl Offset for Offset16 {
    open spec fn spec_value(&self) -> int {
        self.0 as int
    }

    fn to_usize(&self) -> usize {
        self.0 as usize
    }

    fn is_null(&self) -> bool {
        self.0 == 0
    }
}

impl FromData for Offset16 {
    open spec fn spec_size() -> int {
        2
    }

    open spec fn spec_parse(data: Seq<u8>) -> Offset16 {
        Offset16(be16(data, 0))
    }

    proof fn size_facts() {
    }

    fn size() -> usize {
        2
    }

    fn parse(data: &[u8]) -> (r: Option<Offset16>) {
        match u16::parse(data) {
            Some(n) => Some(Offset16(n)),
            None => None,
        }
    }
}

impl FromData for Option<Offset16> {
    open spec fn spec_size() -> int {
        2
    }

    open spec fn spec_parse(data: Seq<u8>) -> Option<Offset16> {
        if be16(data, 0) == 0 {
            None
        } else {
            Some(Offset16(be16(data, 0)))
        }
    }

    proof fn size_facts() {
    }

    fn size() -> usize {
        2
    }

    fn parse(data: &[u8]) -> (r: Option<Option<Offset16>>) {
        match u16::parse(data) {
            Some(n) => {
                if n != 0 {
                    Some(Some(Offset16(n)))
                } else {
                    Some(None)
                }
            },
            None => None,
        }
    }
}

/// A 32-bit offset from the start of a declaring buffer.
#[derive(Clone, Copy, PartialEq, Eq, Structural, Debug)]
pub struct Offset32(pub u32);

impl Offset for Offset32 {
    open spec fn spec_value(&self) -> int {
        self.0 as int
    }

    fn to_usize(&self) -> usize {
        self.0 as usize
    }

    fn is_null(&self) -> bool {
        self.0 == 0
    }
}

impl FromData for Offset32 {
    open spec fn spec_size() -> int {
        4
    }

    open spec fn spec_parse(data: Seq<u8>) -> Offset32 {
        Offset32(be32(data, 0))
    }

    proof fn size_facts() {
    }

    fn size() -> usize {
        4
    }

    fn parse(data: &[u8]) -> (r: Option<Offset32>) {
        match u32::parse(data) {
            Some(n) => Some(Offset32(n)),
            None => None,
        }
    }
}

impl FromData for Option<Offset32> {
    open spec fn spec_size() -> int {
        4
    }

    open spec fn spec_parse(data: Seq<u8>) -> Option<Offset32> {
        if be32(data, 0) == 0 {
            None
        } else {
            Some(Offset32(be32(data, 0)))
        }
    }

    proof fn size_facts() {
    }

    fn size() -> usize {
        4
    }

    fn parse(data: &[u8]) -> (r: Option<Option<Offset32>>) {
        match u32::parse(data) {
            Some(n) => {
                if n != 0 {
                    Some(Some(Offset32(n)))
                } else {
                    Some(None)
                }
            },
            None => None,
        }
    }
}

/// An array of offsets resolving against a declared base buffer.
pub struct Offsets16<'a, T> {
    data: &'a [u8],
    offsets: LazyArray16<'a, T>,
}

impl<'a, T> Clone for Offsets16<'a, T> {
    fn clone(&self) -> (r: Self)
        ensures
            r == *self,
    {
        Offsets16 { data: self.data, offsets: self.offsets }
    }
}

impl<'a, T> Copy for Offsets16<'a, T> {

}

impl<'a, T: Offset + FromData> Offsets16<'a, T> {
    /// The base buffer the offsets resolve against.
    pub closed spec fn spec_base(&self) -> Seq<u8> {
        self.data@
    }

    /// The raw bytes of the offset array.
    pub closed spec fn spec_offsets(&self) -> Seq<u8> {
        self.offsets@
    }

    /// The number of offsets.
    pub open spec fn spec_len(&self) -> int {
        (self.spec_offsets().len() as int / T::spec_size()) % 0x10000
    }

    /// The byte distance stored at position `i`.
    pub open spec fn spec_off(&self, i: int) -> int {
        T::spec_parse(
            self.spec_offsets().subrange(
                i * T::spec_size(),
                i * T::spec_size() + T::spec_size(),
            ),
        ).spec_value()
    }

    /// The bytes position `i` resolves to: the base buffer from that byte
    /// distance on, absent when the distance passes the end of the base.
    pub open spec fn spec_slice(&self, i: int) -> Option<Seq<u8>> {
        if 0 <= i < self.spec_len() && self.spec_off(i) <= self.spec_base().len() {
            Some(self.spec_base().subrange(self.spec_off(i), self.spec_base().len() as int))
        } else {
            None
        }
    }

    /// The number of offsets.
    pub fn len(&self) -> (r: u16)
        ensures
            r as int == self.spec_len(),
    {
        self.offsets.len()
    }

    /// The offset value at `index`.
    fn get(&self, index: u16) -> (r: Option<T>)
        ensures
            r == (if (index as int) < self.spec_len() {
                Some(self.offsets.spec_get(index as int))
            } else {
                None::<T>
            }),
    {
        self.offsets.get(index)
    }

    /// Resolves the offset at `index` against the base buffer.
    pub fn slice(&self, index: u16) -> (r: Option<&'a [u8]>)
        ensures
            (match r {
                Some(b) => self.spec_slice(index as int) == Some(b@),
                None => self.spec_slice(index as int) is None,
            }),
    {
        match self.get(index) {
            Some(off) => {
                let o = off.to_usize();
                if o <= self.data.len() {
                    Some(vstd::slice::slice_subrange(self.data, o, self.data.len()))
                } else {
                    None
                }
            },
            None => None,
        }
    }

    /// The first position at or after `from` holding a non-null offset, or the
    /// array length when every remaining offset is null.
    pub open spec fn spec_first_nonnull(&self, from: int) -> int
        decreases self.spec_len() - from,
    {
        if from >= self.spec_len() {
            self.spec_len()
        } else if self.spec_off(from) != 0 {
            from
        } else {
            self.spec_first_nonnull(from + 1)
        }
    }

    /// Starts an iterator over the resolved, non-null offsets.
    pub fn iter(&self) -> (r: OffsetsIter16<'a, T>)
        ensures
            r.spec_offsets() == *self,
            r.spec_pos() == 0,
    {
        OffsetsIter16 { offsets: *self, index: 0 }
    }
}

/// An iterator over the buffers an `Offsets16` resolves to, skipping null
/// offsets transparently.
pub struct OffsetsIter16<'a, T> {
    offsets: Offsets16<'a, T>,
    index: u16,
}

impl<'a, T: Offset + FromData> OffsetsIter16<'a, T> {
    /// The offset array being walked.
    pub closed spec fn spec_offsets(&self) -> Offsets16<'a, T> {
        self.offsets
    }

    /// The position of the next offset to consider.
    pub closed spec fn spec_pos(&self) -> int {
        self.index as int
    }

    /// Resolves the next non-null offset and steps past it.
    ///
    /// A non-null offset that points past the end of the base buffer yields
    /// absence; the iterator still steps past it, so the caller may continue.
    pub fn next(&mut self) -> (r: Option<&'a [u8]>)
        ensures
            final(self).spec_offsets() == old(self).spec_offsets(),
            old(self).spec_offsets().spec_first_nonnull(old(self).spec_pos()) >= old(self).spec_offsets().spec_len() ==> (r is None && final(self).spec_pos() == old(self).spec_offsets().spec_len()),
            old(self).spec_offsets().spec_first_nonnull(old(self).spec_pos()) < old(self).spec_offsets().spec_len() ==> (final(self).spec_pos() == old(self).spec_offsets().spec_first_nonnull(old(self).spec_pos()) + 1 && (match r {
                Some(b) => old(self).spec_offsets().spec_slice(
                    old(self).spec_offsets().spec_first_nonnull(old(self).spec_pos()),
                ) == Some(b@),
                None => old(self).spec_offsets().spec_slice(
                    old(self).spec_offsets().spec_first_nonnull(old(self).spec_pos()),
                ) is None,
            })),
    {
        let len = self.offsets.len();
        if self.index > len {
            self.index = len;
            return None;
        }
        let ghost start = self.index as int;
        while self.index < len
            invariant
                self.offsets == old(self).offsets,
                start == old(self).index as int,
                start <= self.index as int <= len as int,
                len as int == self.offsets.spec_len(),
                self.offsets.spec_first_nonnull(start)
                    == self.offsets.spec_first_nonnull(self.index as int),
            decreases len as int - self.index as int,
        {
            let o = self.offsets.get(self.index).unwrap();
            if !o.is_null() {
                let idx = self.index;
                self.index = self.index + 1;
                proof {
                    assert(self.offsets.spec_first_nonnull(idx as int) == idx as int);
                }
                return self.offsets.slice(idx);
            }
            proof {
                assert(self.offsets.spec_first_nonnull(self.index as int)
                    == self.offsets.spec_first_nonnull(self.index as int + 1));
            }
            self.index = self.index + 1;
        }
        proof {
            assert(self.offsets.spec_first_nonnull(self.index as int) == self.offsets.spec_len());
        }
        None
    }
}

/// A zero wire value decodes to "absent" for the optional 16-bit offset,
/// whatever the rest of the declaring buffer holds.
pub proof fn lemma_null_offset16_absent(d: Seq<u8>)
    requires
        d.len() == 2,
        be16(d, 0) == 0,
    ensures
        <Option<Offset16> as FromData>::spec_parse(d) is None,
{
}

/// A zero wire value decodes to "absent" for the optional 32-bit offset,
/// whatever the rest of the declaring buffer holds.
pub proof fn lemma_null_offset32_absent(d: Seq<u8>)
    requires
        d.len() == 4,
        be32(d, 0) == 0,
    ensures
        <Option<Offset32> as FromData>::spec_parse(d) is None,
{
}

/// Clamps `val` into `[min, max]`; when the bounds cross, `min` wins.
pub fn i16_bound(min: i16, val: i16, max: i16) -> (r: i16)
    ensures
        r == (if (if val < max {
            val
        } else {
            max
        }) < min {
            min
        } else {
            (if val < max {
                val
            } else {
                max
            })
        }),
{
    let capped = if val < max {
        val
    } else {
        max
    };
    if capped < min {
        min
    } else {
        capped
    }
}

} // verus!
