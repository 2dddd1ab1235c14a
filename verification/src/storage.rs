//! The bit storage under the boards, and everything that is taken on trust
//! about it.
//!
//! All bit addressing is done by the `bitvec` crate. A growable board keeps a
//! `BitVec`. Its type is bounded by traits of `bitvec` that are unknown to
//! Verus, so the vector stays behind the opaque [`BitBuf`], and [`buf_bits`]
//! names what it holds. A fixed board keeps plain machine words, which
//! `bitvec` reads as bits from the least significant bit of the first word
//! on: [`word_bit`] says which bit that is.
//!
//! The functions of this module make the calls. Their contracts state what
//! `bitvec` documents and are not proved. Where a call panics on some input,
//! `requires` leaves that input out.

use bitvec::order::Lsb0;
use bitvec::vec::BitVec;
use bitvec::view::BitView;
use vstd::prelude::*;

verus! {

/// The bit vector that holds the cells of a growable board. What it holds is
/// known only through [`buf_bits`].
#[verifier::external_body]
#[derive(Debug)]
pub struct BitBuf {
    bits: BitVec<usize, Lsb0>,
}

/// The bits that a buffer holds, from its first to its last.
pub uninterp spec fn buf_bits(buf: BitBuf) -> Seq<bool>;

/// The largest number of bits that a bit vector takes: the largest `usize`
/// with its top three bits cleared.
pub open spec fn max_bits() -> int {
    (usize::MAX as int) / 8
}

/// `BitVec::repeat`: a new vector of `len` bits, all equal to `bit`. The call
/// panics for a length that a bit vector cannot take, which `requires` leaves
/// out.
#[verifier::external_body]
pub(crate) fn buf_repeat(bit: bool, len: usize) -> (buf: BitBuf)
    requires
        len <= max_bits(),
    ensures
        buf_bits(buf) == Seq::new(len as nat, |i: int| bit),
{
    BitBuf { bits: BitVec::repeat(bit, len) }
}

/// `BitSlice::get` on the vector's bits: the bit at `index`, or nothing when
/// `index` is not below the length.
#[verifier::external_body]
pub(crate) fn buf_get(buf: &BitBuf, index: usize) -> (bit: Option<bool>)
    ensures
        bit == (if index < buf_bits(*buf).len() {
            Some(buf_bits(*buf)[index as int])
        } else {
            None
        }),
{
    buf.bits.get(index).as_deref().copied()
}

/// `BitSlice::set` on the vector's bits: the bit at `index` becomes `value`
/// and no other bit changes. The call panics for an index that is not below
/// the length, which `requires` leaves out, and for no other.
#[verifier::external_body]
pub(crate) fn buf_set(buf: &mut BitBuf, index: usize, value: bool)
    requires
        index < buf_bits(*old(buf)).len(),
    ensures
        buf_bits(*final(buf)) == buf_bits(*old(buf)).update(index as int, value),
    no_unwind
{
    buf.bits.set(index, value);
}

/// `BitSlice::fill` on the vector's bits: every bit becomes `value`, and the
/// length stays. The call does not panic.
#[verifier::external_body]
pub(crate) fn buf_fill(buf: &mut BitBuf, value: bool)
    ensures
        buf_bits(*final(buf)) == Seq::new(buf_bits(*old(buf)).len(), |i: int| value),
    no_unwind
{
    buf.bits.fill(value);
}

/// `BitVec::clone`: a new vector that holds the same bits.
#[verifier::external_body]
pub(crate) fn buf_clone(buf: &BitBuf) -> (copy: BitBuf)
    ensures
        buf_bits(copy) == buf_bits(*buf),
{
    BitBuf { bits: buf.bits.clone() }
}

/// `==` of two bit vectors: whether they have the same length and the same
/// bit at each place.
#[verifier::external_body]
pub(crate) fn buf_eq(buf: &BitBuf, other: &BitBuf) -> (equal: bool)
    ensures
        equal == (buf_bits(*buf) == buf_bits(*other)),
{
    buf.bits == other.bits
}

/// `|=` of a bit vector with a reference to another: each bit of `buf` is
/// joined by "or" with the bit of `other` at the same place, where `other`
/// counts as `false` past its end. The length of `buf` stays.
#[verifier::external_body]
pub(crate) fn buf_or_assign(buf: &mut BitBuf, other: &BitBuf)
    ensures
        buf_bits(*final(buf)) == Seq::new(
            buf_bits(*old(buf)).len(),
            |i: int| buf_bits(*old(buf))[i] || (i < buf_bits(*other).len() && buf_bits(*other)[i]),
        ),
{
    buf.bits |= &other.bits;
}

/// `&=` of a bit vector with a reference to another: each bit of `buf` is
/// joined by "and" with the bit of `other` at the same place, where `other`
/// counts as `false` past its end. The length of `buf` stays.
#[verifier::external_body]
pub(crate) fn buf_and_assign(buf: &mut BitBuf, other: &BitBuf)
    ensures
        buf_bits(*final(buf)) == Seq::new(
            buf_bits(*old(buf)).len(),
            |i: int| buf_bits(*old(buf))[i] && (i < buf_bits(*other).len() && buf_bits(*other)[i]),
        ),
{
    buf.bits &= &other.bits;
}

/// Bit `k` of a word, counting from the least significant bit.
pub open spec fn bit_of(word: usize, k: usize) -> bool {
    (word >> k) & 1usize == 1usize
}

/// Bit `index` of a block of words, counting from the least significant bit
/// of the first word, through that word, then on through the next.
pub open spec fn word_bit(words: Seq<usize>, index: int) -> bool {
    bit_of(words[index / (usize::BITS as int)], (index % (usize::BITS as int)) as usize)
}

/// The number of bits in a block of `n` words.
pub open spec fn block_bits(n: int) -> int {
    n * (usize::BITS as int)
}

/// `BitSlice::get` on the `Lsb0` view of the words: the bit at `index`, or
/// nothing when `index` is not below the number of bits in the block. Taking
/// the view panics for a block of more bits than a bit-slice takes, which
/// `requires` leaves out.
#[verifier::external_body]
pub(crate) fn words_get<const W: usize>(words: &[usize; W], index: usize) -> (bit: Option<bool>)
    requires
        block_bits(W as int) <= max_bits(),
    ensures
        bit == (if index < block_bits(W as int) {
            Some(word_bit(words@, index as int))
        } else {
            None
        }),
{
    words.view_bits::<Lsb0>().get(index).as_deref().copied()
}

/// `BitSlice::set` on the `Lsb0` view of the words: the bit at `index`
/// becomes `value` and no other bit changes. The call panics for an index
/// that is not below the number of bits, and taking the view for a block of
/// more bits than a bit-slice takes; `requires` leaves both out, and there
/// is no other panic.
#[verifier::external_body]
pub(crate) fn words_set<const W: usize>(words: &mut [usize; W], index: usize, value: bool)
    requires
        block_bits(W as int) <= max_bits(),
        index < block_bits(W as int),
    ensures
        forall|i: int|
            0 <= i < block_bits(W as int) ==> #[trigger] word_bit(final(words)@, i) == (if i
                == index {
                value
            } else {
                word_bit(old(words)@, i)
            }),
    no_unwind
{
    words.view_bits_mut::<Lsb0>().set(index, value);
}

/// `BitSlice::fill` on the first `len` bits of the `Lsb0` view of the words:
/// each of them becomes `value` and no other bit changes. Taking the first
/// `len` bits panics where the block has fewer, and taking the view for a
/// block of more bits than a bit-slice takes; `requires` leaves both out, and
/// there is no other panic.
#[verifier::external_body]
pub(crate) fn words_fill<const W: usize>(words: &mut [usize; W], len: usize, value: bool)
    requires
        block_bits(W as int) <= max_bits(),
        len <= block_bits(W as int),
    ensures
        forall|i: int|
            0 <= i < block_bits(W as int) ==> #[trigger] word_bit(final(words)@, i) == (if i
                < len {
                value
            } else {
                word_bit(old(words)@, i)
            }),
    no_unwind
{
    words.view_bits_mut::<Lsb0>()[..len].fill(value);
}

/// `|=` of the `Lsb0` view of `words` with that of `other`: each bit of
/// `words` is joined by "or" with the bit of `other` at the same place.
/// Taking the views panics for a block of more bits than a bit-slice takes,
/// which `requires` leaves out.
#[verifier::external_body]
pub(crate) fn words_or_assign<const W: usize>(words: &mut [usize; W], other: &[usize; W])
    requires
        block_bits(W as int) <= max_bits(),
    ensures
        forall|i: int|
            0 <= i < block_bits(W as int) ==> #[trigger] word_bit(final(words)@, i) == (word_bit(
                old(words)@,
                i,
            ) || word_bit(other@, i)),
{
    *words.view_bits_mut::<Lsb0>() |= other.view_bits::<Lsb0>();
}

/// `&=` of the `Lsb0` view of `words` with that of `other`: each bit of
/// `words` is joined by "and" with the bit of `other` at the same place.
/// Taking the views panics for a block of more bits than a bit-slice takes,
/// which `requires` leaves out.
#[verifier::external_body]
pub(crate) fn words_and_assign<const W: usize>(words: &mut [usize; W], other: &[usize; W])
    requires
        block_bits(W as int) <= max_bits(),
    ensures
        forall|i: int|
            0 <= i < block_bits(W as int) ==> #[trigger] word_bit(final(words)@, i) == (word_bit(
                old(words)@,
                i,
            ) && word_bit(other@, i)),
{
    *words.view_bits_mut::<Lsb0>() &= other.view_bits::<Lsb0>();
}

} // verus!
