//! A finite byte cursor and the primitive readers built on it.
//!
//! Every reader consumes bytes from the front of the cursor. When the cursor
//! cannot supply what a reader needs, the reader fails with
//! `Error::NotEnoughData` and leaves the cursor untouched.

use vstd::prelude::*;

verus! {

/// The one failure a synthesis call can report.
#[derive(Clone, Copy, Debug, PartialEq, Eq, Structural)]
pub enum Error {
    /// The cursor ran out of bytes before the next read.
    NotEnoughData,
}

/// `256` raised to `n`.
pub open spec fn pow256(n: nat) -> nat
    decreases n,
{
    if n == 0 {
        1
    } else {
        256 * pow256((n - 1) as nat)
    }
}

/// The little-endian value of a byte sequence.
pub open spec fn le_value(s: Seq<u8>) -> nat
    decreases s.len(),
{
    if s.len() == 0 {
        0
    } else {
        (s[0] + 256 * le_value(s.skip(1))) as nat
    }
}

/// The two's-complement reading of an unsigned value `v` of `width` bytes.
pub open spec fn signed_value(v: nat, width: nat) -> int {
    if 2 * v < pow256(width) {
        v as int
    } else {
        v - pow256(width)
    }
}

/// Whether `c` is a Unicode scalar value.
pub open spec fn is_scalar(c: nat) -> bool {
    c < 0xD800 || (0xE000 <= c && c <= 0x10FFFF)
}

/// The scalar value a raw 32-bit value stands for: the value itself when it
/// is a scalar, else the first scalar reached by halving it.
pub open spec fn scalar_of(c: nat) -> nat
    decreases c,
{
    if is_scalar(c) || c == 0 {
        c
    } else {
        scalar_of(c / 2)
    }
}

/// `after` is what is left of `before` once its first `n` bytes are consumed.
pub open spec fn consumed(before: Seq<u8>, after: Seq<u8>, n: nat) -> bool {
    n <= before.len() && after == before.skip(n as int)
}

/// Reading an unsigned integer of `width` bytes: its value and the bytes used.
pub open spec fn uint_from(d: Seq<u8>, width: nat) -> Option<(nat, nat)> {
    if d.len() >= width {
        Some((le_value(d.take(width as int)), width))
    } else {
        None
    }
}

/// Reading a two's-complement integer of `width` bytes.
pub open spec fn int_from(d: Seq<u8>, width: nat) -> Option<(int, nat)> {
    match uint_from(d, width) {
        Some((v, n)) => Some((signed_value(v, width), n)),
        None => None,
    }
}

/// Reading a boolean: the low bit of one byte.
pub open spec fn bool_from(d: Seq<u8>) -> Option<(bool, nat)> {
    if d.len() >= 1 {
        Some((d[0] % 2 == 1, 1))
    } else {
        None
    }
}

/// Choosing one of `k` alternatives: one byte, reduced modulo `k`.
pub open spec fn choice_from(d: Seq<u8>, k: nat) -> Option<(nat, nat)> {
    if d.len() >= 1 {
        Some(((d[0] as nat) % k, 1))
    } else {
        None
    }
}

/// Reading a character: four bytes, taken as a scalar value.
pub open spec fn char_from(d: Seq<u8>) -> Option<(nat, nat)> {
    match uint_from(d, 4) {
        Some((v, n)) => Some((scalar_of(v), n)),
        None => None,
    }
}

/// Reading a byte string: one length byte, then that many bytes.
pub open spec fn bytes_from(d: Seq<u8>) -> Option<(Seq<u8>, nat)> {
    if d.len() >= 1 && d.len() >= 1 + d[0] {
        Some((d.subrange(1, 1 + d[0]), (1 + d[0]) as nat))
    } else {
        None
    }
}

/// Skipping `a` bytes and then `b` bytes is skipping `a + b` bytes.
pub broadcast proof fn lemma_skip_skip(s: Seq<u8>, a: int, b: int)
    requires
        0 <= a,
        0 <= b,
        a + b <= s.len(),
    ensures
        #[trigger] s.skip(a).skip(b) == s.skip(a + b),
{
    assert(s.skip(a).skip(b) =~= s.skip(a + b));
}

/// A little-endian value fits in its bytes.
pub proof fn lemma_le_value_bound(s: Seq<u8>)
    ensures
        le_value(s) < pow256(s.len()),
    decreases s.len(),
{
    if s.len() > 0 {
        lemma_le_value_bound(s.skip(1));
        let a = s[0] as int;
        let b = le_value(s.skip(1)) as int;
        let p = pow256((s.len() - 1) as nat) as int;
        assert(a + 256 * b < 256 * p) by (nonlinear_arith)
            requires
                0 <= a < 256,
                0 <= b < p,
        ;
    }
}

/// A finite byte sequence read from the front.
pub struct Unstructured {
    data: Vec<u8>,
    pos: usize,
}

impl View for Unstructured {
    type V = Seq<u8>;

    /// The bytes not yet consumed.
    closed spec fn view(&self) -> Seq<u8> {
        self.data@.subrange(self.pos as int, self.data@.len() as int)
    }
}

impl Unstructured {
    #[verifier::type_invariant]
    spec fn inv(&self) -> bool {
        self.pos <= self.data.len()
    }

    /// A cursor over `data`, positioned at its first byte.
    pub fn new(data: Vec<u8>) -> (r: Unstructured)
        ensures
            r@ == data@,
    {
        let r = Unstructured { data, pos: 0 };
        assert(r@ =~= data@);
        r
    }

    /// The number of bytes not yet consumed.
    pub fn len(&self) -> (r: usize)
        ensures
            r == self@.len(),
    {
        proof {
            use_type_invariant(self);
        }
        self.data.len() - self.pos
    }

    /// Whether every byte has been consumed.
    pub fn is_empty(&self) -> (r: bool)
        ensures
            r == (self@.len() == 0),
    {
        self.len() == 0
    }

    /// Consumes one byte.
    pub fn read_byte(&mut self) -> (r: Result<u8, Error>)
        ensures
            match r {
                Ok(b) => old(self)@.len() >= 1 && b == old(self)@[0] && final(self)@ == old(self)@.skip(1),
                Err(e) => old(self)@.len() == 0 && final(self)@ == old(self)@,
            },
    {
        proof {
            use_type_invariant(&*self);
        }
        if self.pos < self.data.len() {
            let b = self.data[self.pos];
            self.pos = self.pos + 1;
            assert(self@ =~= old(self)@.skip(1));
            Ok(b)
        } else {
            Err(Error::NotEnoughData)
        }
    }

    /// Consumes `width` bytes and returns their little-endian value.
    pub fn read_le(&mut self, width: usize) -> (r: Result<u128, Error>)
        requires
            1 <= width <= 16,
        ensures
            match r {
                Ok(v) => uint_from(old(self)@, width as nat) == Some((v as nat, width as nat))
                    && (v as nat) < pow256(width as nat)
                    && final(self)@ == old(self)@.skip(width as int),
                Err(e) => uint_from(old(self)@, width as nat) is None && final(self)@ == old(self)@,
            },
    {
        proof {
            use_type_invariant(&*self);
        }
        if self.data.len() - self.pos < width {
            return Err(Error::NotEnoughData);
        }
        let ghost s = old(self)@.take(width as int);
        proof {
            reveal_with_fuel(pow256, 17);
        }
        let mut x: u128 = 0;
        let mut i: usize = width;
        while i > 0
            invariant
                0 <= i <= width <= 16,
                self.pos + width <= self.data.len(),
                s == self.data@.subrange(self.pos as int, self.pos + width),
                x as nat == le_value(s.skip(i as int)),
                le_value(s.skip(i as int)) < pow256((width - i) as nat),
            decreases i,
        {
            let b = self.data[self.pos + i - 1];
            proof {
                assert(s.skip(i - 1).skip(1) =~= s.skip(i as int));
                assert(s.skip(i - 1)[0] == b);
                let p = pow256((width - i) as nat) as int;
                let xi = x as int;
                assert(b + 256 * xi < 256 * p) by (nonlinear_arith)
                    requires
                        0 <= b < 256,
                        0 <= xi < p,
                ;
                assert(pow256((width - i + 1) as nat) == 256 * p);
                reveal_with_fuel(pow256, 17);
                assert(pow256(16) == 0x1_0000_0000_0000_0000_0000_0000_0000_0000);
                assert(256 * p <= pow256(16)) by {
                    lemma_pow256_monotone((width - i + 1) as nat, 16);
                }
            }
            x = b as u128 + 256 * x;
            i = i - 1;
        }
        proof {
            assert(s.skip(0) =~= s);
        }
        self.pos = self.pos + width;
        assert(self@ =~= old(self)@.skip(width as int));
        Ok(x)
    }

    /// Consumes 1 byte as a little-endian `u8`.
    pub fn read_u8(&mut self) -> (r: Result<u8, Error>)
        ensures
            match r {
                Ok(v) => uint_from(old(self)@, 1) == Some((v as nat, 1nat)) && final(self)@ == old(self)@.skip(1),
                Err(e) => uint_from(old(self)@, 1) is None && final(self)@ == old(self)@,
            },
    {
        proof {
            reveal_with_fuel(pow256, 9);
        }
        let v = self.read_le(1)?;
        Ok(v as u8)
    }

    /// Consumes 2 bytes as a little-endian `u16`.
    pub fn read_u16(&mut self) -> (r: Result<u16, Error>)
        ensures
            match r {
                Ok(v) => uint_from(old(self)@, 2) == Some((v as nat, 2nat)) && final(self)@ == old(self)@.skip(2),
                Err(e) => uint_from(old(self)@, 2) is None && final(self)@ == old(self)@,
            },
    {
        proof {
            reveal_with_fuel(pow256, 9);
        }
        let v = self.read_le(2)?;
        Ok(v as u16)
    }

    /// Consumes 4 bytes as a little-endian `u32`.
    pub fn read_u32(&mut self) -> (r: Result<u32, Error>)
        ensures
            match r {
                Ok(v) => uint_from(old(self)@, 4) == Some((v as nat, 4nat)) && final(self)@ == old(self)@.skip(4),
                Err(e) => uint_from(old(self)@, 4) is None && final(self)@ == old(self)@,
            },
    {
        proof {
            reveal_with_fuel(pow256, 9);
        }
        let v = self.read_le(4)?;
        Ok(v as u32)
    }

    /// Consumes 8 bytes as a little-endian `u64`.
    pub fn read_u64(&mut self) -> (r: Result<u64, Error>)
        ensures
            match r {
                Ok(v) => uint_from(old(self)@, 8) == Some((v as nat, 8nat)) && final(self)@ == old(self)@.skip(8),
                Err(e) => uint_from(old(self)@, 8) is None && final(self)@ == old(self)@,
            },
    {
        proof {
            reveal_with_fuel(pow256, 9);
        }
        let v = self.read_le(8)?;
        Ok(v as u64)
    }

    /// Consumes 16 bytes as a little-endian `u128`.
    pub fn read_u128(&mut self) -> (r: Result<u128, Error>)
        ensures
            match r {
                Ok(v) => uint_from(old(self)@, 16) == Some((v as nat, 16nat)) && final(self)@ == old(self)@.skip(16),
                Err(e) => uint_from(old(self)@, 16) is None && final(self)@ == old(self)@,
            },
    {
        self.read_le(16)
    }

    /// Consumes 1 byte as a little-endian two's-complement `i8`.
    pub fn read_i8(&mut self) -> (r: Result<i8, Error>)
        ensures
            match r {
                Ok(v) => int_from(old(self)@, 1) == Some((v as int, 1nat))
                    && final(self)@ == old(self)@.skip(1),
                Err(e) => int_from(old(self)@, 1) is None && final(self)@ == old(self)@,
            },
    {
        proof {
            reveal_with_fuel(pow256, 17);
        }
        let u = self.read_u8()?;
        if u <= i8::MAX as u8 {
            Ok(u as i8)
        } else {
            Ok(-((u8::MAX - u) as i8) - 1)
        }
    }

    /// Consumes 2 bytes as a little-endian two's-complement `i16`.
    pub fn read_i16(&mut self) -> (r: Result<i16, Error>)
        ensures
            match r {
                Ok(v) => int_from(old(self)@, 2) == Some((v as int, 2nat))
                    && final(self)@ == old(self)@.skip(2),
                Err(e) => int_from(old(self)@, 2) is None && final(self)@ == old(self)@,
            },
    {
        proof {
            reveal_with_fuel(pow256, 17);
        }
        let u = self.read_u16()?;
        if u <= i16::MAX as u16 {
            Ok(u as i16)
        } else {
            Ok(-((u16::MAX - u) as i16) - 1)
        }
    }

    /// Consumes 4 bytes as a little-endian two's-complement `i32`.
    pub fn read_i32(&mut self) -> (r: Result<i32, Error>)
        ensures
            match r {
                Ok(v) => int_from(old(self)@, 4) == Some((v as int, 4nat))
                    && final(self)@ == old(self)@.skip(4),
                Err(e) => int_from(old(self)@, 4) is None && final(self)@ == old(self)@,
            },
    {
        proof {
            reveal_with_fuel(pow256, 17);
        }
        let u = self.read_u32()?;
        if u <= i32::MAX as u32 {
            Ok(u as i32)
        } else {
            Ok(-((u32::MAX - u) as i32) - 1)
        }
    }

    /// Consumes 8 bytes as a little-endian two's-complement `i64`.
    pub fn read_i64(&mut self) -> (r: Result<i64, Error>)
        ensures
            match r {
                Ok(v) => int_from(old(self)@, 8) == Some((v as int, 8nat))
                    && final(self)@ == old(self)@.skip(8),
                Err(e) => int_from(old(self)@, 8) is None && final(self)@ == old(self)@,
            },
    {
        proof {
            reveal_with_fuel(pow256, 17);
        }
        let u = self.read_u64()?;
        if u <= i64::MAX as u64 {
            Ok(u as i64)
        } else {
            Ok(-((u64::MAX - u) as i64) - 1)
        }
    }

    /// Consumes 16 bytes as a little-endian two's-complement `i128`.
    pub fn read_i128(&mut self) -> (r: Result<i128, Error>)
        ensures
            match r {
                Ok(v) => int_from(old(self)@, 16) == Some((v as int, 16nat))
                    && final(self)@ == old(self)@.skip(16),
                Err(e) => int_from(old(self)@, 16) is None && final(self)@ == old(self)@,
            },
    {
        proof {
            reveal_with_fuel(pow256, 17);
        }
        let u = self.read_u128()?;
        if u <= i128::MAX as u128 {
            Ok(u as i128)
        } else {
            Ok(-((u128::MAX - u) as i128) - 1)
        }
    }

    /// Consumes one byte and reads its low bit.
    pub fn read_bool(&mut self) -> (r: Result<bool, Error>)
        ensures
            match r {
                Ok(b) => bool_from(old(self)@) == Some((b, 1nat)) && final(self)@ == old(self)@.skip(1),
                Err(e) => bool_from(old(self)@) is None && final(self)@ == old(self)@,
            },
    {
        let b = self.read_byte()?;
        Ok(b % 2 == 1)
    }

    /// Consumes one byte and picks one of `k` alternatives by its index.
    pub fn choose_index(&mut self, k: u8) -> (r: Result<u8, Error>)
        requires
            k >= 1,
        ensures
            match r {
                Ok(i) => i < k && choice_from(old(self)@, k as nat) == Some((i as nat, 1nat))
                    && final(self)@ == old(self)@.skip(1),
                Err(e) => choice_from(old(self)@, k as nat) is None && final(self)@ == old(self)@,
            },
    {
        let b = self.read_byte()?;
        Ok(b % k)
    }

    /// Consumes four bytes and turns them into a character's scalar value.
    pub fn read_char(&mut self) -> (r: Result<u32, Error>)
        ensures
            match r {
                Ok(c) => char_from(old(self)@) == Some((c as nat, 4nat)) && is_scalar(c as nat)
                    && final(self)@ == old(self)@.skip(4),
                Err(e) => char_from(old(self)@) is None && final(self)@ == old(self)@,
            },
    {
        let mut c = self.read_u32()?;
        let ghost raw = c as nat;
        while !(c < 0xD800 || (0xE000 <= c && c <= 0x10FFFF))
            invariant
                scalar_of(c as nat) == scalar_of(raw),
            decreases c,
        {
            c = c / 2;
        }
        Ok(c)
    }

    /// Consumes one length byte and then that many bytes.
    pub fn read_bytes(&mut self) -> (r: Result<Vec<u8>, Error>)
        ensures
            match r {
                Ok(v) => bytes_from(old(self)@) == Some((v@, (v@.len() + 1) as nat))
                    && final(self)@ == old(self)@.skip(v@.len() + 1 as int),
                Err(e) => bytes_from(old(self)@) is None && final(self)@ == old(self)@,
            },
    {
        proof {
            use_type_invariant(&*self);
        }
        if self.pos >= self.data.len() {
            return Err(Error::NotEnoughData);
        }
        let n = self.data[self.pos] as usize;
        if self.data.len() - self.pos - 1 < n {
            return Err(Error::NotEnoughData);
        }
        let start = self.pos + 1;
        let mut out: Vec<u8> = Vec::new();
        let mut i: usize = 0;
        while i < n
            invariant
                i <= n,
                start + n <= self.data.len(),
                out@ == self.data@.subrange(start as int, start + i),
            decreases n - i,
        {
            out.push(self.data[start + i]);
            i = i + 1;
            assert(out@ =~= self.data@.subrange(start as int, start + i));
        }
        self.pos = start + n;
        assert(out@ =~= old(self)@.subrange(1, 1 + n));
        assert(self@ =~= old(self)@.skip(n + 1));
        Ok(out)
    }
}

/// Halving reaches a scalar value no larger than where it started.
pub proof fn lemma_scalar_of(c: nat)
    ensures
        is_scalar(scalar_of(c)),
        scalar_of(c) <= c,
    decreases c,
{
    if !is_scalar(c) {
        lemma_scalar_of(c / 2);
    }
}

proof fn lemma_pow256_monotone(a: nat, b: nat)
    requires
        a <= b,
    ensures
        pow256(a) <= pow256(b),
    decreases b,
{
    if a < b {
        lemma_pow256_monotone(a, (b - 1) as nat);
    }
}

} // verus!
