//! Big-endian integer reads, the primitive everything on the wire shares.

use vstd::prelude::*;

verus! {

/// The unsigned value of two big-endian bytes.
pub open spec fn be_u16(s: Seq<u8>) -> int {
    s[0] * 0x100 + s[1]
}

/// The unsigned value of four big-endian bytes.
pub open spec fn be_u32(s: Seq<u8>) -> int {
    s[0] * 0x1000000 + s[1] * 0x10000 + s[2] * 0x100 + s[3]
}

/// The unsigned value of eight big-endian bytes.
pub open spec fn be_u64(s: Seq<u8>) -> int {
    be_u32(s) * 0x100000000 + be_u32(s.skip(4))
}

/// Two's-complement reading of an unsigned value.
pub open spec fn signed_of(u: int, half: int, full: int) -> int {
    if u < half {
        u
    } else {
        u - full
    }
}

/// The signed value of two big-endian bytes.
pub open spec fn be_i16(s: Seq<u8>) -> int {
    signed_of(be_u16(s), 0x8000, 0x10000)
}

/// The signed value of four big-endian bytes.
pub open spec fn be_i32(s: Seq<u8>) -> int {
    signed_of(be_u32(s), 0x80000000, 0x100000000)
}

/// The signed value of eight big-endian bytes.
pub open spec fn be_i64(s: Seq<u8>) -> int {
    signed_of(be_u64(s), 0x8000000000000000, 0x10000000000000000)
}

/// Read an unsigned 16-bit big-endian integer at `at`.
pub fn read_u16_at(buf: &[u8], at: usize) -> (r: u16)
    requires
        at + 2 <= buf@.len(),
    ensures
        r == be_u16(buf@.skip(at as int)),
{
    let b0 = buf[at];
    let b1 = buf[at + 1];
    let r: u16 = (b0 as u16) * 0x100 + (b1 as u16);
    proof {
        let s = buf@.skip(at as int);
        assert(s[0] == buf@[at as int]);
        assert(s[1] == buf@[at as int + 1]);
    }
    r
}

/// Read an unsigned 32-bit big-endian integer at `at`.
pub fn read_u32_at(buf: &[u8], at: usize) -> (r: u32)
    requires
        at + 4 <= buf@.len(),
    ensures
        r == be_u32(buf@.skip(at as int)),
{
    let b0 = buf[at];
    let b1 = buf[at + 1];
    let b2 = buf[at + 2];
    let b3 = buf[at + 3];
    let r: u32 = (b0 as u32) * 0x1000000 + (b1 as u32) * 0x10000 + (b2 as u32) * 0x100 + (
    b3 as u32);
    proof {
        let s = buf@.skip(at as int);
        assert(s[0] == buf@[at as int]);
        assert(s[1] == buf@[at as int + 1]);
        assert(s[2] == buf@[at as int + 2]);
        assert(s[3] == buf@[at as int + 3]);
    }
    r
}

/// Read an unsigned 64-bit big-endian integer at `at`.
pub fn read_u64_at(buf: &[u8], at: usize) -> (r: u64)
    requires
        at + 8 <= buf@.len(),
    ensures
        r == be_u64(buf@.skip(at as int)),
{
    let n = buf.len();
    proof {
        assert(at + 8 <= n);
    }
    let hi = read_u32_at(buf, at);
    let lo = read_u32_at(buf, at + 4);
    let r: u64 = (hi as u64) * 0x100000000 + (lo as u64);
    proof {
        assert(buf@.skip(at as int).skip(4) =~= buf@.skip(at as int + 4));
    }
    r
}

/// Read a signed 16-bit big-endian integer at `at`.
pub fn read_i16_at(buf: &[u8], at: usize) -> (r: i16)
    requires
        at + 2 <= buf@.len(),
    ensures
        r == be_i16(buf@.skip(at as int)),
{
    let u = read_u16_at(buf, at);
    if u < 0x8000 {
        u as i16
    } else {
        -((0xffffu16 - u) as i16) - 1
    }
}

/// Read a signed 32-bit big-endian integer at `at`.
pub fn read_i32_at(buf: &[u8], at: usize) -> (r: i32)
    requires
        at + 4 <= buf@.len(),
    ensures
        r == be_i32(buf@.skip(at as int)),
{
    let u = read_u32_at(buf, at);
    if u < 0x80000000 {
        u as i32
    } else {
        -((0xffffffffu32 - u) as i32) - 1
    }
}

/// Read a signed 64-bit big-endian integer at `at`.
pub fn read_i64_at(buf: &[u8], at: usize) -> (r: i64)
    requires
        at + 8 <= buf@.len(),
    ensures
        r == be_i64(buf@.skip(at as int)),
{
    let u = read_u64_at(buf, at);
    if u < 0x8000000000000000 {
        u as i64
    } else {
        -((0xffffffffffffffffu64 - u) as i64) - 1
    }
}

/// The signed value of the first four bytes of a buffer.
pub fn read_i32(buf: &[u8]) -> (r: i32)
    requires
        buf@.len() >= 4,
    ensures
        r == be_i32(buf@),
{
    let r = read_i32_at(buf, 0);
    proof {
        assert(buf@.skip(0) =~= buf@);
    }
    r
}

/// The signed value of the first eight bytes of a buffer.
pub fn read_i64(buf: &[u8]) -> (r: i64)
    requires
        buf@.len() >= 8,
    ensures
        r == be_i64(buf@),
{
    let r = read_i64_at(buf, 0);
    proof {
        assert(buf@.skip(0) =~= buf@);
    }
    r
}

/// Copy the bytes `[at, at + len)` out of a buffer.
pub fn copy_range(buf: &[u8], at: usize, len: usize) -> (r: Vec<u8>)
    requires
        at + len <= buf@.len(),
    ensures
        r@ =~= buf@.subrange(at as int, at as int + len as int),
{
    let n = buf.len();
    let mut v: Vec<u8> = Vec::new();
    let mut i: usize = 0;
    while i < len
        invariant
            i <= len,
            at + len <= n,
            n == buf@.len(),
            v@ =~= buf@.subrange(at as int, at as int + i as int),
        decreases len - i,
    {
        v.push(buf[at + i]);
        i = i + 1;
    }
    v
}

/// Whether `b` is a continuation byte of a multi-byte sequence.
pub open spec fn utf8_cont(b: u8) -> bool {
    0x80 <= b <= 0xbf
}

/// Whether the bytes from position `i` on are well-formed UTF-8: the
/// encoding table of RFC 3629, shortest forms only, surrogates and
/// values past U+10FFFF excluded.
pub open spec fn utf8_ok_from(s: Seq<u8>, i: int) -> bool
    decreases s.len() - i,
{
    if i >= s.len() {
        true
    } else {
        let b0 = s[i];
        if b0 < 0x80 {
            utf8_ok_from(s, i + 1)
        } else if 0xc2 <= b0 <= 0xdf {
            i + 1 < s.len() && utf8_cont(s[i + 1]) && utf8_ok_from(s, i + 2)
        } else if b0 == 0xe0 {
            i + 2 < s.len() && 0xa0 <= s[i + 1] <= 0xbf && utf8_cont(s[i + 2]) && utf8_ok_from(
                s,
                i + 3,
            )
        } else if 0xe1 <= b0 <= 0xec || 0xee <= b0 <= 0xef {
            i + 2 < s.len() && utf8_cont(s[i + 1]) && utf8_cont(s[i + 2]) && utf8_ok_from(s, i + 3)
        } else if b0 == 0xed {
            i + 2 < s.len() && 0x80 <= s[i + 1] <= 0x9f && utf8_cont(s[i + 2]) && utf8_ok_from(
                s,
                i + 3,
            )
        } else if b0 == 0xf0 {
            i + 3 < s.len() && 0x90 <= s[i + 1] <= 0xbf && utf8_cont(s[i + 2]) && utf8_cont(
                s[i + 3],
            ) && utf8_ok_from(s, i + 4)
        } else if 0xf1 <= b0 <= 0xf3 {
            i + 3 < s.len() && utf8_cont(s[i + 1]) && utf8_cont(s[i + 2]) && utf8_cont(s[i + 3])
                && utf8_ok_from(s, i + 4)
        } else if b0 == 0xf4 {
            i + 3 < s.len() && 0x80 <= s[i + 1] <= 0x8f && utf8_cont(s[i + 2]) && utf8_cont(
                s[i + 3],
            ) && utf8_ok_from(s, i + 4)
        } else {
            false
        }
    }
}

/// Whether a byte string is well-formed UTF-8.
pub open spec fn utf8_ok(s: Seq<u8>) -> bool {
    utf8_ok_from(s, 0)
}

/// Check a byte string for well-formed UTF-8.
#[verifier::loop_isolation(false)]
pub fn is_utf8(b: &[u8]) -> (r: bool)
    ensures
        r == utf8_ok(b@),
{
    let n = b.len();
    let mut i: usize = 0;
    while i < n
        invariant
            i <= n,
            utf8_ok(b@) == utf8_ok_from(b@, i as int),
        decreases n - i,
    {
        let b0 = b[i];
        if b0 < 0x80 {
            i = i + 1;
        } else if 0xc2 <= b0 && b0 <= 0xdf {
            if !(n - i > 1 && 0x80 <= b[i + 1] && b[i + 1] <= 0xbf) {
                return false;
            }
            i = i + 2;
        } else if b0 == 0xe0 {
            if !(n - i > 2 && 0xa0 <= b[i + 1] && b[i + 1] <= 0xbf && 0x80 <= b[i + 2] && b[i + 2]
                <= 0xbf) {
                return false;
            }
            i = i + 3;
        } else if (0xe1 <= b0 && b0 <= 0xec) || (0xee <= b0 && b0 <= 0xef) {
            if !(n - i > 2 && 0x80 <= b[i + 1] && b[i + 1] <= 0xbf && 0x80 <= b[i + 2] && b[i + 2]
                <= 0xbf) {
                return false;
            }
            i = i + 3;
        } else if b0 == 0xed {
            if !(n - i > 2 && 0x80 <= b[i + 1] && b[i + 1] <= 0x9f && 0x80 <= b[i + 2] && b[i + 2]
                <= 0xbf) {
                return false;
            }
            i = i + 3;
        } else if b0 == 0xf0 {
            if !(n - i > 3 && 0x90 <= b[i + 1] && b[i + 1] <= 0xbf && 0x80 <= b[i + 2] && b[i + 2]
                <= 0xbf && 0x80 <= b[i + 3] && b[i + 3] <= 0xbf) {
                return false;
            }
            i = i + 4;
        } else if 0xf1 <= b0 && b0 <= 0xf3 {
            if !(n - i > 3 && 0x80 <= b[i + 1] && b[i + 1] <= 0xbf && 0x80 <= b[i + 2] && b[i + 2]
                <= 0xbf && 0x80 <= b[i + 3] && b[i + 3] <= 0xbf) {
                return false;
            }
            i = i + 4;
        } else if b0 == 0xf4 {
            if !(n - i > 3 && 0x80 <= b[i + 1] && b[i + 1] <= 0x8f && 0x80 <= b[i + 2] && b[i + 2]
                <= 0xbf && 0x80 <= b[i + 3] && b[i + 3] <= 0xbf) {
                return false;
            }
            i = i + 4;
        } else {
            return false;
        }
    }
    true
}

} // verus!
