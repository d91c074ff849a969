use vstd::prelude::*;
use vstd::slice::slice_subrange;
use crate::parse::Parse;

verus! {

// All multi-byte quantities in a font file are big-endian.  The spec
// functions below give the mathematical value of a run of bytes; the
// `Parse` impls decode the same value in executable code.

/// Big-endian 16-bit value of two bytes.
pub open spec fn be16(b0: u8, b1: u8) -> int {
    b0 * 0x100 + b1
}

/// Big-endian 32-bit value of four bytes.
pub open spec fn be32(b0: u8, b1: u8, b2: u8, b3: u8) -> int {
    b0 * 0x1000000 + b1 * 0x10000 + b2 * 0x100 + b3
}

/// Big-endian 64-bit value of eight bytes.
pub open spec fn be64(data: Seq<u8>) -> int {
    be32(data[0], data[1], data[2], data[3]) * 0x100000000 + be32(
        data[4],
        data[5],
        data[6],
        data[7],
    )
}

/// Two's-complement reading of an 8-bit value.
pub open spec fn signed8(n: int) -> int {
    if n < 0x80 {
        n
    } else {
        n - 0x100
    }
}

/// Two's-complement reading of a 16-bit value.
pub open spec fn signed16(n: int) -> int {
    if n < 0x8000 {
        n
    } else {
        n - 0x10000
    }
}

/// Two's-complement reading of a 32-bit value.
pub open spec fn signed32(n: int) -> int {
    if n < 0x80000000 {
        n
    } else {
        n - 0x100000000
    }
}

/// Two's-complement reading of a 64-bit value.
pub open spec fn signed64(n: int) -> int {
    if n < 0x8000000000000000 {
        n
    } else {
        n - 0x10000000000000000
    }
}

/// The big-endian 16-bit value encoded at element index `i` of `data`
/// (byte offset `2 * i`).
pub open spec fn u16_at(data: Seq<u8>, i: int) -> int {
    be16(data[2 * i], data[2 * i + 1])
}

/// The signed big-endian 16-bit value encoded at element index `i` of `data`.
pub open spec fn i16_at(data: Seq<u8>, i: int) -> int {
    signed16(u16_at(data, i))
}

/// The big-endian 32-bit value encoded at element index `i` of `data`
/// (byte offset `4 * i`).
pub open spec fn u32_at(data: Seq<u8>, i: int) -> int {
    be32(data[4 * i], data[4 * i + 1], data[4 * i + 2], data[4 * i + 3])
}

impl Parse for u8 {
    open spec fn spec_size() -> nat {
        1
    }

    open spec fn parsed(data: Seq<u8>, v: Self) -> bool {
        v == data[0]
    }

    proof fn parsed_prefix_only(d1: Seq<u8>, d2: Seq<u8>, v: Self) {
        assert(d1.subrange(0, 1)[0] == d2.subrange(0, 1)[0]);
    }

    proof fn parsed_unique(data: Seq<u8>, v1: Self, v2: Self) {
    }

    proof fn size_positive() {
    }

    fn approx_file_size() -> (r: usize) {
        1
    }

    fn parse<'a>(buf: &'a [u8]) -> (r: (&'a [u8], Self)) {
        let v = buf[0];
        (slice_subrange(buf, 1, buf.len()), v)
    }
}

impl Parse for u16 {
    open spec fn spec_size() -> nat {
        2
    }

    open spec fn parsed(data: Seq<u8>, v: Self) -> bool {
        v == be16(data[0], data[1])
    }

    proof fn parsed_prefix_only(d1: Seq<u8>, d2: Seq<u8>, v: Self) {
        assert(d1.subrange(0, 2)[0] == d2.subrange(0, 2)[0]);
        assert(d1.subrange(0, 2)[1] == d2.subrange(0, 2)[1]);
    }

    proof fn parsed_unique(data: Seq<u8>, v1: Self, v2: Self) {
    }

    proof fn size_positive() {
    }

    fn approx_file_size() -> (r: usize) {
        2
    }

    fn parse<'a>(buf: &'a [u8]) -> (r: (&'a [u8], Self)) {
        let v = (buf[0] as u16) * 0x100 + (buf[1] as u16);
        (slice_subrange(buf, 2, buf.len()), v)
    }
}

impl Parse for u32 {
    open spec fn spec_size() -> nat {
        4
    }

    open spec fn parsed(data: Seq<u8>, v: Self) -> bool {
        v == be32(data[0], data[1], data[2], data[3])
    }

    proof fn parsed_prefix_only(d1: Seq<u8>, d2: Seq<u8>, v: Self) {
        assert(d1.subrange(0, 4)[0] == d2.subrange(0, 4)[0]);
        assert(d1.subrange(0, 4)[1] == d2.subrange(0, 4)[1]);
        assert(d1.subrange(0, 4)[2] == d2.subrange(0, 4)[2]);
        assert(d1.subrange(0, 4)[3] == d2.subrange(0, 4)[3]);
    }

    proof fn parsed_unique(data: Seq<u8>, v1: Self, v2: Self) {
    }

    proof fn size_positive() {
    }

    fn approx_file_size() -> (r: usize) {
        4
    }

    fn parse<'a>(buf: &'a [u8]) -> (r: (&'a [u8], Self)) {
        let v = (buf[0] as u32) * 0x1000000 + (buf[1] as u32) * 0x10000 + (buf[2] as u32) * 0x100
            + (buf[3] as u32);
        (slice_subrange(buf, 4, buf.len()), v)
    }
}

impl Parse for u64 {
    open spec fn spec_size() -> nat {
        8
    }

    open spec fn parsed(data: Seq<u8>, v: Self) -> bool {
        v == be64(data)
    }

    proof fn parsed_prefix_only(d1: Seq<u8>, d2: Seq<u8>, v: Self) {
        assert(d1.subrange(0, 8)[0] == d2.subrange(0, 8)[0]);
        assert(d1.subrange(0, 8)[1] == d2.subrange(0, 8)[1]);
        assert(d1.subrange(0, 8)[2] == d2.subrange(0, 8)[2]);
        assert(d1.subrange(0, 8)[3] == d2.subrange(0, 8)[3]);
        assert(d1.subrange(0, 8)[4] == d2.subrange(0, 8)[4]);
        assert(d1.subrange(0, 8)[5] == d2.subrange(0, 8)[5]);
        assert(d1.subrange(0, 8)[6] == d2.subrange(0, 8)[6]);
        assert(d1.subrange(0, 8)[7] == d2.subrange(0, 8)[7]);
    }

    proof fn parsed_unique(data: Seq<u8>, v1: Self, v2: Self) {
    }

    proof fn size_positive() {
    }

    fn approx_file_size() -> (r: usize) {
        8
    }

    fn parse<'a>(buf: &'a [u8]) -> (r: (&'a [u8], Self)) {
        let hi = (buf[0] as u64) * 0x1000000 + (buf[1] as u64) * 0x10000 + (buf[2] as u64) * 0x100
            + (buf[3] as u64);
        let lo = (buf[4] as u64) * 0x1000000 + (buf[5] as u64) * 0x10000 + (buf[6] as u64) * 0x100
            + (buf[7] as u64);
        let v = hi * 0x100000000 + lo;
        (slice_subrange(buf, 8, buf.len()), v)
    }
}

impl Parse for i8 {
    open spec fn spec_size() -> nat {
        1
    }

    open spec fn parsed(data: Seq<u8>, v: Self) -> bool {
        v == signed8(data[0] as int)
    }

    proof fn parsed_prefix_only(d1: Seq<u8>, d2: Seq<u8>, v: Self) {
        assert(d1.subrange(0, 1)[0] == d2.subrange(0, 1)[0]);
    }

    proof fn parsed_unique(data: Seq<u8>, v1: Self, v2: Self) {
    }

    proof fn size_positive() {
    }

    fn approx_file_size() -> (r: usize) {
        1
    }

    fn parse<'a>(buf: &'a [u8]) -> (r: (&'a [u8], Self)) {
        let b = buf[0];
        let v: i8 = if b >= 0x80 {
            ((b as i16) - 0x100) as i8
        } else {
            b as i8
        };
        (slice_subrange(buf, 1, buf.len()), v)
    }
}

impl Parse for i16 {
    open spec fn spec_size() -> nat {
        2
    }

    open spec fn parsed(data: Seq<u8>, v: Self) -> bool {
        v == signed16(be16(data[0], data[1]))
    }

    proof fn parsed_prefix_only(d1: Seq<u8>, d2: Seq<u8>, v: Self) {
        assert(d1.subrange(0, 2)[0] == d2.subrange(0, 2)[0]);
        assert(d1.subrange(0, 2)[1] == d2.subrange(0, 2)[1]);
    }

    proof fn parsed_unique(data: Seq<u8>, v1: Self, v2: Self) {
    }

    proof fn size_positive() {
    }

    fn approx_file_size() -> (r: usize) {
        2
    }

    fn parse<'a>(buf: &'a [u8]) -> (r: (&'a [u8], Self)) {
        let n = (buf[0] as u16) * 0x100 + (buf[1] as u16);
        let v: i16 = if n >= 0x8000 {
            ((n as i32) - 0x10000) as i16
        } else {
            n as i16
        };
        (slice_subrange(buf, 2, buf.len()), v)
    }
}

impl Parse for i32 {
    open spec fn spec_size() -> nat {
        4
    }

    open spec fn parsed(data: Seq<u8>, v: Self) -> bool {
        v == signed32(be32(data[0], data[1], data[2], data[3]))
    }

    proof fn parsed_prefix_only(d1: Seq<u8>, d2: Seq<u8>, v: Self) {
        assert(d1.subrange(0, 4)[0] == d2.subrange(0, 4)[0]);
        assert(d1.subrange(0, 4)[1] == d2.subrange(0, 4)[1]);
        assert(d1.subrange(0, 4)[2] == d2.subrange(0, 4)[2]);
        assert(d1.subrange(0, 4)[3] == d2.subrange(0, 4)[3]);
    }

    proof fn parsed_unique(data: Seq<u8>, v1: Self, v2: Self) {
    }

    proof fn size_positive() {
    }

    fn approx_file_size() -> (r: usize) {
        4
    }

    fn parse<'a>(buf: &'a [u8]) -> (r: (&'a [u8], Self)) {
        let n = (buf[0] as u32) * 0x1000000 + (buf[1] as u32) * 0x10000 + (buf[2] as u32) * 0x100
            + (buf[3] as u32);
        let v: i32 = if n >= 0x80000000 {
            ((n as i64) - 0x100000000) as i32
        } else {
            n as i32
        };
        (slice_subrange(buf, 4, buf.len()), v)
    }
}

impl Parse for i64 {
    open spec fn spec_size() -> nat {
        8
    }

    open spec fn parsed(data: Seq<u8>, v: Self) -> bool {
        v == signed64(be64(data))
    }

    proof fn parsed_prefix_only(d1: Seq<u8>, d2: Seq<u8>, v: Self) {
        assert(d1.subrange(0, 8)[0] == d2.subrange(0, 8)[0]);
        assert(d1.subrange(0, 8)[1] == d2.subrange(0, 8)[1]);
        assert(d1.subrange(0, 8)[2] == d2.subrange(0, 8)[2]);
        assert(d1.subrange(0, 8)[3] == d2.subrange(0, 8)[3]);
        assert(d1.subrange(0, 8)[4] == d2.subrange(0, 8)[4]);
        assert(d1.subrange(0, 8)[5] == d2.subrange(0, 8)[5]);
        assert(d1.subrange(0, 8)[6] == d2.subrange(0, 8)[6]);
        assert(d1.subrange(0, 8)[7] == d2.subrange(0, 8)[7]);
    }

    proof fn parsed_unique(data: Seq<u8>, v1: Self, v2: Self) {
    }

    proof fn size_positive() {
    }

    fn approx_file_size() -> (r: usize) {
        8
    }

    fn parse<'a>(buf: &'a [u8]) -> (r: (&'a [u8], Self)) {
        let (rest, n) = u64::parse(buf);
        let v: i64 = if n >= 0x8000000000000000 {
            (n - 0x8000000000000000) as i64 - 0x4000000000000000 - 0x4000000000000000
        } else {
            n as i64
        };
        (rest, v)
    }
}

/// A 16.16 fixed-point number: integral part then fractional part,
/// each a signed 16-bit half.
#[derive(Debug, PartialEq, Eq, Clone, Copy)]
pub struct Fixed(pub i16, pub i16);

impl Parse for Fixed {
    open spec fn spec_size() -> nat {
        4
    }

    open spec fn parsed(data: Seq<u8>, v: Self) -> bool {
        &&& v.0 == signed16(be16(data[0], data[1]))
        &&& v.1 == signed16(be16(data[2], data[3]))
    }

    proof fn parsed_prefix_only(d1: Seq<u8>, d2: Seq<u8>, v: Self) {
        assert(d1.subrange(0, 4)[0] == d2.subrange(0, 4)[0]);
        assert(d1.subrange(0, 4)[1] == d2.subrange(0, 4)[1]);
        assert(d1.subrange(0, 4)[2] == d2.subrange(0, 4)[2]);
        assert(d1.subrange(0, 4)[3] == d2.subrange(0, 4)[3]);
    }

    proof fn parsed_unique(data: Seq<u8>, v1: Self, v2: Self) {
    }

    proof fn size_positive() {
    }

    fn approx_file_size() -> (r: usize) {
        4
    }

    fn parse<'a>(buf: &'a [u8]) -> (r: (&'a [u8], Self)) {
        let (buf, a) = i16::parse(buf);
        let (buf, b) = i16::parse(buf);
        (buf, Fixed(a, b))
    }
}

/// A quantity measured in the font's design-space units.
#[derive(Debug, PartialEq, Eq, Clone, Copy)]
pub struct FontUnit<T>(pub T);

impl<T: Parse> Parse for FontUnit<T> {
    open spec fn spec_size() -> nat {
        T::spec_size()
    }

    open spec fn parsed(data: Seq<u8>, v: Self) -> bool {
        T::parsed(data, v.0)
    }

    proof fn parsed_prefix_only(d1: Seq<u8>, d2: Seq<u8>, v: Self) {
        T::parsed_prefix_only(d1, d2, v.0);
    }

    proof fn parsed_unique(data: Seq<u8>, v1: Self, v2: Self) {
        T::parsed_unique(data, v1.0, v2.0);
    }

    proof fn size_positive() {
        T::size_positive();
    }

    fn approx_file_size() -> (r: usize) {
        T::approx_file_size()
    }

    fn parse<'a>(buf: &'a [u8]) -> (r: (&'a [u8], Self)) {
        let (buf, v) = T::parse(buf);
        (buf, FontUnit(v))
    }
}

/// A design-space distance stored as a signed 16-bit word.
pub type FWord = FontUnit<i16>;

/// A design-space distance stored as an unsigned 16-bit word.
pub type UFWord = FontUnit<u16>;

/// Seconds since the start of 1904, as stored in the font header.
pub type LongDateTime = i64;

} // verus!
