//! The primitive decoder: reads one CBOR-like item at a time from an
//! in-memory byte source, with one-byte lookahead.
//!
//! A header byte splits into a 3-bit major type and a 5-bit argument.
//! Arguments 0..=23 stand for themselves; 24, 25, 26 and 27 announce 1, 2,
//! 4 or 8 following big-endian bytes; 31 is the indefinite-length / break
//! sentinel, surfaced to callers as -1.

use vstd::prelude::*;

use crate::FtrError;

verus! {

/// The major type of a header byte: its top three bits.
pub open spec fn major_of(b: u8) -> u8 {
    (b >> 5) & 0x07
}

/// The argument of a header byte: its low five bits.
pub open spec fn arg_of(b: u8) -> u8 {
    b & 0x1f
}

/// How many bytes follow a header with argument `arg`.
pub open spec fn extra_len(arg: u8) -> nat {
    if arg < 24 {
        0
    } else if arg == 24 {
        1
    } else if arg == 25 {
        2
    } else if arg == 26 {
        4
    } else if arg == 27 {
        8
    } else {
        0
    }
}

/// The big-endian value of a byte sequence.
pub open spec fn be_val(s: Seq<u8>) -> nat
    decreases s.len(),
{
    if s.len() == 0 {
        0
    } else {
        (be_val(s.drop_last()) * 256 + s.last()) as nat
    }
}

/// An unsigned 64-bit value reinterpreted as a signed one, as assembling
/// eight bytes with shifts over `i64` does.
pub open spec fn as_signed64(v: nat) -> int {
    if v < 0x8000000000000000 {
        v as int
    } else {
        v - 0x10000000000000000
    }
}

/// The value denoted by a header argument together with its following
/// bytes: literal below 24, big-endian of the following bytes for the four
/// long forms, and the -1 sentinel for everything else (break included).
pub open spec fn arg_val(arg: u8, extra: Seq<u8>) -> int {
    if arg < 24 {
        arg as int
    } else if arg <= 27 {
        as_signed64(be_val(extra))
    } else {
        -1
    }
}

/// Whether a whole header-plus-argument item starts at position `i` of `s`.
pub open spec fn has_item(s: Seq<u8>, i: int) -> bool {
    0 <= i < s.len() && i + 1 + extra_len(arg_of(s[i])) <= s.len()
}

/// Where the item starting at `i` ends (one past its last byte).
pub open spec fn item_end(s: Seq<u8>, i: int) -> int {
    i + 1 + extra_len(arg_of(s[i]))
}

/// The value of the item starting at `i`.
pub open spec fn item_val(s: Seq<u8>, i: int) -> int {
    arg_val(arg_of(s[i]), s.subrange(i + 1, item_end(s, i)))
}

/// The value of a signed-integer item: major type 0 carries the value
/// itself, major type 1 its one's complement.
pub open spec fn int_item_val(s: Seq<u8>, i: int) -> int {
    if major_of(s[i]) == 0 {
        item_val(s, i)
    } else {
        -1 - item_val(s, i)
    }
}

/// What reading a signed integer at position `i` of `s` yields: the value
/// and the position after it, or the failure it stops with.
pub open spec fn sp_read_int(s: Seq<u8>, i: int) -> Result<(int, int), FtrError> {
    if !(0 <= i < s.len()) {
        Err(FtrError::Truncated)
    } else if major_of(s[i]) >= 2 {
        Err(FtrError::Format)
    } else if !has_item(s, i) {
        Err(FtrError::Truncated)
    } else {
        Ok((int_item_val(s, i), item_end(s, i)))
    }
}

/// What reading a header-plus-argument item of the given major type at
/// position `i` yields.
pub open spec fn sp_read_item(s: Seq<u8>, i: int, major: u8) -> Result<(int, int), FtrError> {
    if !(0 <= i < s.len()) {
        Err(FtrError::Truncated)
    } else if major_of(s[i]) != major {
        Err(FtrError::Format)
    } else if !has_item(s, i) {
        Err(FtrError::Truncated)
    } else {
        Ok((item_val(s, i), item_end(s, i)))
    }
}

/// What reading a signed integer meant as an id yields: the integer,
/// narrowed to `usize`; a value outside that range is a format failure.
pub open spec fn sp_read_id(s: Seq<u8>, i: int) -> Result<(usize, int), FtrError> {
    match sp_read_int(s, i) {
        Err(e) => Err(e),
        Ok((v, j)) => if 0 <= v <= usize::MAX {
            Ok((v as usize, j))
        } else {
            Err(FtrError::Format)
        },
    }
}

/// What reading a text string at position `i` yields: its characters and
/// the position after it.
pub open spec fn sp_read_text(s: Seq<u8>, i: int) -> Result<(Seq<char>, int), FtrError> {
    if !(0 <= i < s.len()) {
        Err(FtrError::Truncated)
    } else if major_of(s[i]) != 3 {
        Err(FtrError::Format)
    } else if !has_item(s, i) {
        Err(FtrError::Truncated)
    } else if item_val(s, i) < 0 {
        Err(FtrError::Format)
    } else if item_end(s, i) + item_val(s, i) > s.len() {
        Err(FtrError::Truncated)
    } else {
        match utf8_decode(s.subrange(item_end(s, i), item_end(s, i) + item_val(s, i))) {
            Some(cs) => Ok((cs, item_end(s, i) + item_val(s, i))),
            None => Err(FtrError::Encoding),
        }
    }
}

/// What reading a byte string at position `i` yields: its bytes and the
/// position after them.
pub open spec fn sp_read_bstr(s: Seq<u8>, i: int) -> Result<(Seq<u8>, int), FtrError> {
    if !(0 <= i < s.len()) {
        Err(FtrError::Truncated)
    } else if major_of(s[i]) != 2 {
        Err(FtrError::Format)
    } else if !has_item(s, i) {
        Err(FtrError::Truncated)
    } else if item_val(s, i) < 0 {
        Err(FtrError::Format)
    } else if item_end(s, i) + item_val(s, i) > s.len() {
        Err(FtrError::Truncated)
    } else {
        Ok((s.subrange(item_end(s, i), item_end(s, i) + item_val(s, i)), item_end(s, i) + item_val(s, i)))
    }
}

/// What stepping over a byte string yields: the position after it,
/// clamped to the end of the source.
pub open spec fn sp_skip_bstr(s: Seq<u8>, i: int) -> Result<int, FtrError> {
    if !(0 <= i < s.len()) {
        Err(FtrError::Truncated)
    } else if major_of(s[i]) != 2 {
        Err(FtrError::Format)
    } else if !has_item(s, i) {
        Err(FtrError::Truncated)
    } else if item_val(s, i) < 0 {
        Err(FtrError::Format)
    } else if item_end(s, i) + item_val(s, i) <= s.len() {
        Ok(item_end(s, i) + item_val(s, i))
    } else {
        Ok(s.len() as int)
    }
}

/// What reading a boolean yields.
pub open spec fn sp_read_bool(s: Seq<u8>, i: int) -> Result<(bool, int), FtrError> {
    if !(0 <= i < s.len()) {
        Err(FtrError::Truncated)
    } else if major_of(s[i]) != 7 {
        Err(FtrError::Format)
    } else {
        Ok((arg_of(s[i]) == 21, i + 1))
    }
}

/// What reading the raw bits of a 32-bit float yields.
pub open spec fn sp_read_float_bits(s: Seq<u8>, i: int) -> Result<(u32, int), FtrError> {
    if !(0 <= i < s.len()) {
        Err(FtrError::Truncated)
    } else if major_of(s[i]) != 7 || arg_of(s[i]) != 26 {
        Err(FtrError::Format)
    } else if i + 5 > s.len() {
        Err(FtrError::Truncated)
    } else {
        Ok((be_val(s.subrange(i + 1, i + 5)) as u32, i + 5))
    }
}

/// The characters that the UTF-8 bytes decode to, or nothing when they are
/// not valid UTF-8.
pub uninterp spec fn utf8_decode(bytes: Seq<u8>) -> Option<Seq<char>>;

/// Relies on String::from_utf8: the decoded characters, and whether the
/// bytes are valid UTF-8 at all, depend on the bytes alone.
#[verifier::external_body]
fn string_from_utf8(bytes: Vec<u8>) -> (r: Option<String>)
    ensures
        match r {
            Some(st) => utf8_decode(bytes@) == Some(st@),
            None => utf8_decode(bytes@) is None,
        },
{
    match String::from_utf8(bytes) {
        Ok(st) => Some(st),
        Err(_) => None,
    }
}

/// The primitive decoder: a byte source, a cursor, and at most one
/// buffered (peeked) byte.
pub struct CborDecoder {
    bytes: Vec<u8>,
    pos: usize,
    peeked: Option<u8>,
}

impl CborDecoder {
    /// The whole underlying byte source.
    pub closed spec fn data(self) -> Seq<u8> {
        self.bytes@
    }

    /// The position of the next unconsumed byte. A buffered peeked byte
    /// counts as not yet consumed.
    pub closed spec fn cursor(self) -> int {
        self.pos - (if self.peeked is Some {
            1int
        } else {
            0int
        })
    }

    /// The unconsumed remainder of the source.
    pub open spec fn rest(self) -> Seq<u8> {
        self.data().skip(self.cursor())
    }

    /// Internal consistency: the buffered byte, when present, is the byte
    /// just before `pos`, so that buffering never changes `rest()`.
    pub closed spec fn wf(self) -> bool {
        &&& self.pos <= self.bytes@.len()
        &&& match self.peeked {
            Some(b) => self.pos >= 1 && b == self.bytes@[self.pos - 1],
            None => true,
        }
    }

    pub fn new(bytes: Vec<u8>) -> (r: CborDecoder)
        ensures
            r.wf(),
            r.data() == bytes@,
            r.cursor() == 0,
    {
        CborDecoder { bytes, pos: 0, peeked: None }
    }

    /// A well-formed decoder's cursor lies within its source.
    pub proof fn lemma_wf_bounds(self)
        requires
            self.wf(),
        ensures
            0 <= self.cursor() <= self.data().len(),
    {
    }

    /// Consume one byte: the buffered one if present, else the next from
    /// the source. `None` exactly when the source is exhausted.
    fn take_byte(&mut self) -> (r: Option<u8>)
        requires
            old(self).wf(),
        ensures
            final(self).wf(),
            final(self).data() == old(self).data(),
            match r {
                Some(b) => {
                    &&& old(self).cursor() < old(self).data().len()
                    &&& b == old(self).data()[old(self).cursor()]
                    &&& final(self).cursor() == old(self).cursor() + 1
                },
                None => {
                    &&& old(self).cursor() == old(self).data().len()
                    &&& final(self).cursor() == old(self).cursor()
                },
            },
    {
        match self.peeked {
            Some(b) => {
                self.peeked = None;
                Some(b)
            },
            None => {
                if self.pos < self.bytes.len() {
                    let b = self.bytes[self.pos];
                    self.pos = self.pos + 1;
                    Some(b)
                } else {
                    None
                }
            },
        }
    }

    /// How many bytes of the source are not yet consumed.
    fn remaining(&self) -> (r: usize)
        requires
            self.wf(),
        ensures
            r == self.data().len() - self.cursor(),
    {
        match self.peeked {
            Some(_) => self.bytes.len() - self.pos + 1,
            None => self.bytes.len() - self.pos,
        }
    }

    /// Read `n` following bytes as one big-endian value.
    fn read_be(&mut self, n: usize) -> (r: Result<u64, FtrError>)
        requires
            old(self).wf(),
            1 <= n <= 8,
        ensures
            final(self).wf(),
            final(self).data() == old(self).data(),
            ({
                let s = old(self).data();
                let i = old(self).cursor();
                match r {
                    Ok(v) => {
                        &&& i + n <= s.len()
                        &&& v == be_val(s.subrange(i, i + n))
                        &&& final(self).cursor() == i + n
                    },
                    Err(e) => {
                        &&& e == FtrError::Truncated
                        &&& i + n > s.len()
                        &&& final(self).cursor() == i
                    },
                }
            }),
    {
        proof {
            lemma_pow256_le_u64_max(n as nat);
        }
        if self.remaining() < n {
            return Err(FtrError::Truncated);
        }
        let ghost s = self.data();
        let ghost start = self.cursor();
        let mut acc: u64 = 0;
        let mut k: usize = 0;
        while k < n
            invariant
                self.wf(),
                self.data() == s,
                0 <= k <= n <= 8,
                0 <= start,
                start + n <= s.len(),
                self.cursor() == start + k,
                acc == be_val(s.subrange(start, start + k)),
                acc < pow256(k as nat),
            decreases n - k,
        {
            proof {
                lemma_pow256_le_u64_max(n as nat);
                lemma_pow256_increases(k as nat, (n - 1) as nat);
            }
            let b = match self.take_byte() {
                Some(b) => b,
                None => {
                    proof {
                        assert(false);
                    }
                    return Err(FtrError::Truncated);
                },
            };
            proof {
                assert(0 <= start);
                assert(start + k + 1 <= s.len());
                let t = s.subrange(start, start + k + 1);
                assert(t.len() == k + 1);
                assert(t.drop_last() =~= s.subrange(start, start + k));
                assert(t.last() == s[start + k]);
                assert(be_val(t) == be_val(s.subrange(start, start + k)) * 256 + s[start + k]);
            }
            acc = acc * 256 + (b as u64);
            k = k + 1;
        }
        Ok(acc)
    }
}

impl CborDecoder {
    /// Reposition the cursor at `offset`, or at the end of the source when
    /// `offset` lies beyond it, discarding any buffered byte.
    pub fn seek_to(&mut self, offset: usize)
        requires
            old(self).wf(),
        ensures
            final(self).wf(),
            final(self).data() == old(self).data(),
            final(self).cursor() == if offset <= old(self).data().len() {
                offset as int
            } else {
                old(self).data().len() as int
            },
    {
        self.peeked = None;
        if offset <= self.bytes.len() {
            self.pos = offset;
        } else {
            self.pos = self.bytes.len();
        }
    }

    /// Move the cursor `n` bytes forward, stopping at the end of the
    /// source.
    fn advance(&mut self, n: usize)
        requires
            old(self).wf(),
        ensures
            final(self).wf(),
            final(self).data() == old(self).data(),
            final(self).cursor() == if old(self).cursor() + n <= old(self).data().len() {
                old(self).cursor() + n
            } else {
                old(self).data().len() as int
            },
    {
        let mut left = n;
        if left > 0 && self.peeked.is_some() {
            self.peeked = None;
            left = left - 1;
        }
        if left > self.bytes.len() - self.pos {
            self.pos = self.bytes.len();
        } else {
            self.pos = self.pos + left;
        }
    }

    /// Fold an unsigned 64-bit value into the signed value with the same
    /// bit pattern.
    fn to_signed64(v: u64) -> (r: i64)
        ensures
            r == as_signed64(v as nat),
    {
        if v < 0x8000000000000000 {
            v as i64
        } else {
            ((v - 0x8000000000000000) as i64) + i64::MIN
        }
    }

    /// Interpret a five-bit argument: literal below 24; for 24, 25, 26 and
    /// 27 read the announced 1, 2, 4 or 8 big-endian bytes; everything
    /// above (the break marker included, allowed or not) is the -1
    /// sentinel, with nothing consumed.
    pub fn read_unsigned_int(&mut self, length: u8, break_allowed: bool) -> (r: Result<
        i64,
        FtrError,
    >)
        requires
            old(self).wf(),
        ensures
            final(self).wf(),
            final(self).data() == old(self).data(),
            ({
                let s = old(self).data();
                let i = old(self).cursor();
                match r {
                    Ok(v) => {
                        &&& i + extra_len(length) <= s.len()
                        &&& v == arg_val(length, s.subrange(i, i + extra_len(length)))
                        &&& final(self).cursor() == i + extra_len(length)
                    },
                    Err(e) => {
                        &&& e == FtrError::Truncated
                        &&& 24 <= length <= 27
                        &&& i + extra_len(length) > s.len()
                        &&& final(self).cursor() == i
                    },
                }
            }),
    {
        if length < 24 {
            Ok(length as i64)
        } else if length == 24 {
            let v = self.read_be(1)?;
            Ok(Self::to_signed64(v))
        } else if length == 25 {
            let v = self.read_be(2)?;
            Ok(Self::to_signed64(v))
        } else if length == 26 {
            let v = self.read_be(4)?;
            Ok(Self::to_signed64(v))
        } else if length == 27 {
            let v = self.read_be(8)?;
            Ok(Self::to_signed64(v))
        } else if break_allowed && length == 31 {
            Ok(-1)
        } else {
            Ok(-1)
        }
    }

    /// Consume one header byte; fail unless its major type is the expected
    /// one; hand back its five-bit argument.
    pub fn read_major_type(&mut self, major_type: u8) -> (r: Result<u8, FtrError>)
        requires
            old(self).wf(),
        ensures
            final(self).wf(),
            final(self).data() == old(self).data(),
            ({
                let s = old(self).data();
                let i = old(self).cursor();
                match r {
                    Ok(arg) => {
                        &&& i < s.len()
                        &&& major_of(s[i]) == major_type
                        &&& arg == arg_of(s[i])
                        &&& final(self).cursor() == i + 1
                    },
                    Err(e) => if i == s.len() {
                        &&& e == FtrError::Truncated
                        &&& final(self).cursor() == i
                    } else {
                        &&& e == FtrError::Format
                        &&& major_of(s[i]) != major_type
                        &&& final(self).cursor() == i + 1
                    },
                }
            }),
    {
        match self.take_byte() {
            None => Err(FtrError::Truncated),
            Some(b) => {
                if (b >> 5) & 0x07 == major_type {
                    Ok(b & 0x1f)
                } else {
                    Err(FtrError::Format)
                }
            },
        }
    }

    /// Consume one header byte of the expected major type and the argument
    /// bytes it announces; hand back the argument's value.
    pub fn read_major_type_with_size(&mut self, major_type: u8) -> (r: Result<i64, FtrError>)
        requires
            old(self).wf(),
        ensures
            final(self).wf(),
            final(self).data() == old(self).data(),
            ({
                let s = old(self).data();
                let i = old(self).cursor();
                match r {
                    Ok(v) => {
                        &&& has_item(s, i)
                        &&& major_of(s[i]) == major_type
                        &&& v == item_val(s, i)
                        &&& final(self).cursor() == item_end(s, i)
                    },
                    Err(e) => if i == s.len() {
                        &&& e == FtrError::Truncated
                        &&& final(self).cursor() == i
                    } else if major_of(s[i]) != major_type {
                        &&& e == FtrError::Format
                        &&& final(self).cursor() == i + 1
                    } else {
                        &&& e == FtrError::Truncated
                        &&& !has_item(s, i)
                        &&& final(self).cursor() == i + 1
                    },
                }
            }),
    {
        let arg = self.read_major_type(major_type)?;
        let v = self.read_unsigned_int(arg, true)?;
        Ok(v)
    }

    /// Consume one header byte of the expected major type; fail unless its
    /// argument equals the expected sub-type.
    pub fn read_major_type_exact(&mut self, major_type: u8, sub_type: u8) -> (r: Result<
        (),
        FtrError,
    >)
        requires
            old(self).wf(),
        ensures
            final(self).wf(),
            final(self).data() == old(self).data(),
            ({
                let s = old(self).data();
                let i = old(self).cursor();
                match r {
                    Ok(_) => {
                        &&& i < s.len()
                        &&& major_of(s[i]) == major_type
                        &&& arg_of(s[i]) == sub_type
                        &&& final(self).cursor() == i + 1
                    },
                    Err(e) => if i == s.len() {
                        &&& e == FtrError::Truncated
                        &&& final(self).cursor() == i
                    } else {
                        &&& e == FtrError::Format
                        &&& (major_of(s[i]) != major_type || arg_of(s[i]) != sub_type)
                        &&& final(self).cursor() == i + 1
                    },
                }
            }),
    {
        let sub_t = self.read_major_type(major_type)?;
        if sub_t != sub_type {
            return Err(FtrError::Format);
        }
        Ok(())
    }

    /// Read a tag item: a tag header and its argument.
    pub fn read_tag(&mut self) -> (r: Result<i64, FtrError>)
        requires
            old(self).wf(),
        ensures
            final(self).wf(),
            final(self).data() == old(self).data(),
            ({
                let s = old(self).data();
                let i = old(self).cursor();
                match r {
                    Ok(v) => {
                        &&& has_item(s, i)
                        &&& major_of(s[i]) == 6
                        &&& v == item_val(s, i)
                        &&& final(self).cursor() == item_end(s, i)
                    },
                    Err(e) => if i == s.len() {
                        &&& e == FtrError::Truncated
                        &&& final(self).cursor() == i
                    } else if major_of(s[i]) != 6 {
                        &&& e == FtrError::Format
                        &&& final(self).cursor() == i + 1
                    } else {
                        &&& e == FtrError::Truncated
                        &&& !has_item(s, i)
                        &&& final(self).cursor() == i + 1
                    },
                }
            }),
    {
        let length = self.read_major_type(0x06)?;
        let v = self.read_unsigned_int(length, false)?;
        Ok(v)
    }

    /// Read an array-length item: -1 stands for indefinite length.
    pub fn read_array_length(&mut self) -> (r: Result<i64, FtrError>)
        requires
            old(self).wf(),
        ensures
            final(self).wf(),
            final(self).data() == old(self).data(),
            ({
                let s = old(self).data();
                let i = old(self).cursor();
                match r {
                    Ok(v) => {
                        &&& has_item(s, i)
                        &&& major_of(s[i]) == 4
                        &&& v == item_val(s, i)
                        &&& final(self).cursor() == item_end(s, i)
                    },
                    Err(e) => if i == s.len() {
                        &&& e == FtrError::Truncated
                        &&& final(self).cursor() == i
                    } else if major_of(s[i]) != 4 {
                        &&& e == FtrError::Format
                        &&& final(self).cursor() == i + 1
                    } else {
                        &&& e == FtrError::Truncated
                        &&& !has_item(s, i)
                        &&& final(self).cursor() == i + 1
                    },
                }
            }),
    {
        self.read_major_type_with_size(0x04)
    }

    /// Read a map-length item: -1 stands for indefinite length.
    pub fn read_map_length(&mut self) -> (r: Result<i64, FtrError>)
        requires
            old(self).wf(),
        ensures
            final(self).wf(),
            final(self).data() == old(self).data(),
            ({
                let s = old(self).data();
                let i = old(self).cursor();
                match r {
                    Ok(v) => {
                        &&& has_item(s, i)
                        &&& major_of(s[i]) == 5
                        &&& v == item_val(s, i)
                        &&& final(self).cursor() == item_end(s, i)
                    },
                    Err(e) => if i == s.len() {
                        &&& e == FtrError::Truncated
                        &&& final(self).cursor() == i
                    } else if major_of(s[i]) != 5 {
                        &&& e == FtrError::Format
                        &&& final(self).cursor() == i + 1
                    } else {
                        &&& e == FtrError::Truncated
                        &&& !has_item(s, i)
                        &&& final(self).cursor() == i + 1
                    },
                }
            }),
    {
        self.read_major_type_with_size(0x05)
    }

    /// Which of the two integer major types the header byte `ib` carries:
    /// 0 for non-negative, -1 for negative; a failure for any other major
    /// type. Consumes nothing.
    pub fn expect_integer_type(&mut self, ib: u8) -> (r: Result<i64, FtrError>)
        ensures
            *final(self) == *old(self),
            ({
                match r {
                    Ok(v) => major_of(ib) <= 1 && v == -(major_of(ib) as int),
                    Err(e) => e == FtrError::Format && major_of(ib) >= 2,
                }
            }),
    {
        let major_type = (ib >> 5) & 0x07;
        if major_type != 0x00 && major_type != 0x01 {
            Err(FtrError::Format)
        } else {
            Ok(-(major_type as i64))
        }
    }

    /// Read a signed integer: one header byte of either integer major
    /// type, then its argument; major type 1 folds the argument `a` to
    /// `-1 - a`.
    pub fn read_int(&mut self) -> (r: Result<i64, FtrError>)
        requires
            old(self).wf(),
        ensures
            final(self).wf(),
            final(self).data() == old(self).data(),
            ({
                let s = old(self).data();
                let i = old(self).cursor();
                match r {
                    Ok(v) => {
                        &&& has_item(s, i)
                        &&& major_of(s[i]) <= 1
                        &&& v == int_item_val(s, i)
                        &&& final(self).cursor() == item_end(s, i)
                    },
                    Err(e) => if i == s.len() {
                        &&& e == FtrError::Truncated
                        &&& final(self).cursor() == i
                    } else if major_of(s[i]) >= 2 {
                        &&& e == FtrError::Format
                        &&& final(self).cursor() == i + 1
                    } else {
                        &&& e == FtrError::Truncated
                        &&& !has_item(s, i)
                        &&& final(self).cursor() == i + 1
                    },
                }
            }),
    {
        let b = match self.take_byte() {
            Some(b) => b,
            None => {
                return Err(FtrError::Truncated);
            },
        };
        let ui = self.expect_integer_type(b)?;
        let x = self.read_unsigned_int(b & 0x1f, false)?;
        Ok(if ui == 0 {
            x
        } else {
            -1 - x
        })
    }

    /// Read a boolean: a simple-value header, true exactly for sub-type
    /// 21.
    pub fn read_boolean(&mut self) -> (r: Result<bool, FtrError>)
        requires
            old(self).wf(),
        ensures
            final(self).wf(),
            final(self).data() == old(self).data(),
            ({
                let s = old(self).data();
                let i = old(self).cursor();
                match r {
                    Ok(v) => {
                        &&& i < s.len()
                        &&& major_of(s[i]) == 7
                        &&& v == (arg_of(s[i]) == 21)
                        &&& final(self).cursor() == i + 1
                    },
                    Err(e) => if i == s.len() {
                        &&& e == FtrError::Truncated
                        &&& final(self).cursor() == i
                    } else {
                        &&& e == FtrError::Format
                        &&& major_of(s[i]) != 7
                        &&& final(self).cursor() == i + 1
                    },
                }
            }),
    {
        let b = self.read_major_type(0x07)?;
        Ok(b == 0x15)
    }
}

impl CborDecoder {
    /// Read the raw big-endian bits of a 32-bit float: a simple-value
    /// header with sub-type 26, then four bytes.
    pub fn read_float(&mut self) -> (r: Result<u32, FtrError>)
        requires
            old(self).wf(),
        ensures
            final(self).wf(),
            final(self).data() == old(self).data(),
            ({
                let s = old(self).data();
                let i = old(self).cursor();
                match r {
                    Ok(v) => {
                        &&& i + 5 <= s.len()
                        &&& major_of(s[i]) == 7
                        &&& arg_of(s[i]) == 26
                        &&& v == be_val(s.subrange(i + 1, i + 5))
                        &&& final(self).cursor() == i + 5
                    },
                    Err(e) => if i == s.len() {
                        &&& e == FtrError::Truncated
                        &&& final(self).cursor() == i
                    } else if major_of(s[i]) != 7 || arg_of(s[i]) != 26 {
                        &&& e == FtrError::Format
                        &&& final(self).cursor() == i + 1
                    } else {
                        &&& e == FtrError::Truncated
                        &&& i + 5 > s.len()
                        &&& final(self).cursor() == i + 1
                    },
                }
            }),
    {
        self.read_major_type_exact(0x07, 0x1a)?;
        let ghost s = self.data();
        let ghost j = self.cursor();
        let v = self.read_be(4)?;
        proof {
            lemma_be_val_bound(s.subrange(j, j + 4));
            reveal_with_fuel(pow256, 5);
        }
        Ok(v as u32)
    }

    /// Read the raw big-endian bits of a 64-bit float: a simple-value
    /// header with sub-type 27, then eight bytes.
    pub fn read_double(&mut self) -> (r: Result<u64, FtrError>)
        requires
            old(self).wf(),
        ensures
            final(self).wf(),
            final(self).data() == old(self).data(),
            ({
                let s = old(self).data();
                let i = old(self).cursor();
                match r {
                    Ok(v) => {
                        &&& i + 9 <= s.len()
                        &&& major_of(s[i]) == 7
                        &&& arg_of(s[i]) == 27
                        &&& v == be_val(s.subrange(i + 1, i + 9))
                        &&& final(self).cursor() == i + 9
                    },
                    Err(e) => if i == s.len() {
                        &&& e == FtrError::Truncated
                        &&& final(self).cursor() == i
                    } else if major_of(s[i]) != 7 || arg_of(s[i]) != 27 {
                        &&& e == FtrError::Format
                        &&& final(self).cursor() == i + 1
                    } else {
                        &&& e == FtrError::Truncated
                        &&& i + 9 > s.len()
                        &&& final(self).cursor() == i + 1
                    },
                }
            }),
    {
        self.read_major_type_exact(0x07, 0x1b)?;
        let v = self.read_be(8)?;
        Ok(v)
    }

    /// Read the raw big-endian bits of a half-precision float: a
    /// simple-value header with sub-type 25, then two bytes.
    pub fn read_half_precision_float(&mut self) -> (r: Result<u16, FtrError>)
        requires
            old(self).wf(),
        ensures
            final(self).wf(),
            final(self).data() == old(self).data(),
            ({
                let s = old(self).data();
                let i = old(self).cursor();
                match r {
                    Ok(v) => {
                        &&& i + 3 <= s.len()
                        &&& major_of(s[i]) == 7
                        &&& arg_of(s[i]) == 25
                        &&& v == be_val(s.subrange(i + 1, i + 3))
                        &&& final(self).cursor() == i + 3
                    },
                    Err(e) => if i == s.len() {
                        &&& e == FtrError::Truncated
                        &&& final(self).cursor() == i
                    } else if major_of(s[i]) != 7 || arg_of(s[i]) != 25 {
                        &&& e == FtrError::Format
                        &&& final(self).cursor() == i + 1
                    } else {
                        &&& e == FtrError::Truncated
                        &&& i + 3 > s.len()
                        &&& final(self).cursor() == i + 1
                    },
                }
            }),
    {
        self.read_major_type_exact(0x07, 0x19)?;
        let ghost s = self.data();
        let ghost j = self.cursor();
        let v = self.read_be(2)?;
        proof {
            lemma_be_val_bound(s.subrange(j, j + 2));
            reveal_with_fuel(pow256, 3);
        }
        Ok(v as u16)
    }

    /// Read a length-prefixed run of bytes under the given major type.
    fn read_payload(&mut self, major_type: u8) -> (r: Result<Vec<u8>, FtrError>)
        requires
            old(self).wf(),
        ensures
            final(self).wf(),
            final(self).data() == old(self).data(),
            ({
                let s = old(self).data();
                let i = old(self).cursor();
                match r {
                    Ok(v) => {
                        &&& has_item(s, i)
                        &&& major_of(s[i]) == major_type
                        &&& item_val(s, i) >= 0
                        &&& item_end(s, i) + item_val(s, i) <= s.len()
                        &&& v@ == s.subrange(item_end(s, i), item_end(s, i) + item_val(s, i))
                        &&& final(self).cursor() == item_end(s, i) + item_val(s, i)
                    },
                    Err(e) => if i == s.len() {
                        &&& e == FtrError::Truncated
                        &&& final(self).cursor() == i
                    } else if major_of(s[i]) != major_type {
                        &&& e == FtrError::Format
                        &&& final(self).cursor() == i + 1
                    } else if !has_item(s, i) {
                        &&& e == FtrError::Truncated
                        &&& final(self).cursor() == i + 1
                    } else if item_val(s, i) < 0 {
                        &&& e == FtrError::Format
                        &&& final(self).cursor() == item_end(s, i)
                    } else {
                        &&& e == FtrError::Truncated
                        &&& item_end(s, i) + item_val(s, i) > s.len()
                        &&& final(self).cursor() == item_end(s, i)
                    },
                }
            }),
    {
        let len = self.read_major_type_with_size(major_type)?;
        if len < 0 {
            return Err(FtrError::Format);
        }
        if (len as u64) > (self.remaining() as u64) {
            return Err(FtrError::Truncated);
        }
        let cnt = len as usize;
        let ghost s = self.data();
        let ghost mid = self.cursor();
        let mut out: Vec<u8> = Vec::new();
        let mut k: usize = 0;
        while k < cnt
            invariant
                self.wf(),
                self.data() == s,
                0 <= k <= cnt,
                0 <= mid,
                mid + cnt <= s.len(),
                self.cursor() == mid + k,
                out@ =~= s.subrange(mid, mid + k),
            decreases cnt - k,
        {
            let b = match self.take_byte() {
                Some(b) => b,
                None => {
                    proof {
                        assert(false);
                    }
                    return Err(FtrError::Truncated);
                },
            };
            out.push(b);
            proof {
                assert(out@ =~= s.subrange(mid, mid + k + 1));
            }
            k = k + 1;
        }
        Ok(out)
    }

    /// Read a byte string: a length header of the byte-string major type,
    /// then exactly that many bytes. Indefinite length is refused.
    pub fn read_byte_string(&mut self) -> (r: Result<Vec<u8>, FtrError>)
        requires
            old(self).wf(),
        ensures
            final(self).wf(),
            final(self).data() == old(self).data(),
            ({
                let s = old(self).data();
                let i = old(self).cursor();
                match r {
                    Ok(v) => {
                        &&& has_item(s, i)
                        &&& major_of(s[i]) == 2
                        &&& item_val(s, i) >= 0
                        &&& item_end(s, i) + item_val(s, i) <= s.len()
                        &&& v@ == s.subrange(item_end(s, i), item_end(s, i) + item_val(s, i))
                        &&& final(self).cursor() == item_end(s, i) + item_val(s, i)
                    },
                    Err(e) => if i == s.len() {
                        &&& e == FtrError::Truncated
                        &&& final(self).cursor() == i
                    } else if major_of(s[i]) != 2 {
                        &&& e == FtrError::Format
                        &&& final(self).cursor() == i + 1
                    } else if !has_item(s, i) {
                        &&& e == FtrError::Truncated
                        &&& final(self).cursor() == i + 1
                    } else if item_val(s, i) < 0 {
                        &&& e == FtrError::Format
                        &&& final(self).cursor() == item_end(s, i)
                    } else {
                        &&& e == FtrError::Truncated
                        &&& item_end(s, i) + item_val(s, i) > s.len()
                        &&& final(self).cursor() == item_end(s, i)
                    },
                }
            }),
    {
        self.read_payload(0x02)
    }

    /// Read the length header of a byte string and step over its bytes
    /// without copying them, stopping at the end of the source.
    pub fn skip_byte_string(&mut self) -> (r: Result<(), FtrError>)
        requires
            old(self).wf(),
        ensures
            final(self).wf(),
            final(self).data() == old(self).data(),
            ({
                let s = old(self).data();
                let i = old(self).cursor();
                match r {
                    Ok(_) => {
                        &&& has_item(s, i)
                        &&& major_of(s[i]) == 2
                        &&& item_val(s, i) >= 0
                        &&& final(self).cursor() == if item_end(s, i) + item_val(s, i) <= s.len() {
                            item_end(s, i) + item_val(s, i)
                        } else {
                            s.len() as int
                        }
                    },
                    Err(e) => if i == s.len() {
                        &&& e == FtrError::Truncated
                        &&& final(self).cursor() == i
                    } else if major_of(s[i]) != 2 {
                        &&& e == FtrError::Format
                        &&& final(self).cursor() == i + 1
                    } else if !has_item(s, i) {
                        &&& e == FtrError::Truncated
                        &&& final(self).cursor() == i + 1
                    } else {
                        &&& e == FtrError::Format
                        &&& item_val(s, i) < 0
                        &&& final(self).cursor() == item_end(s, i)
                    },
                }
            }),
    {
        let len = self.read_major_type_with_size(0x02)?;
        if len < 0 {
            return Err(FtrError::Format);
        }
        let step = if (len as u64) > (usize::MAX as u64) {
            usize::MAX
        } else {
            len as usize
        };
        self.advance(step);
        Ok(())
    }

    /// Read a text string: a length header of the text major type, that
    /// many bytes, decoded as UTF-8. Indefinite length is refused.
    pub fn read_text_string(&mut self) -> (r: Result<String, FtrError>)
        requires
            old(self).wf(),
        ensures
            final(self).wf(),
            final(self).data() == old(self).data(),
            ({
                let s = old(self).data();
                let i = old(self).cursor();
                match r {
                    Ok(st) => {
                        &&& has_item(s, i)
                        &&& major_of(s[i]) == 3
                        &&& item_val(s, i) >= 0
                        &&& item_end(s, i) + item_val(s, i) <= s.len()
                        &&& utf8_decode(s.subrange(item_end(s, i), item_end(s, i) + item_val(s, i)))
                            == Some(st@)
                        &&& final(self).cursor() == item_end(s, i) + item_val(s, i)
                    },
                    Err(e) => if i == s.len() {
                        &&& e == FtrError::Truncated
                        &&& final(self).cursor() == i
                    } else if major_of(s[i]) != 3 {
                        &&& e == FtrError::Format
                        &&& final(self).cursor() == i + 1
                    } else if !has_item(s, i) {
                        &&& e == FtrError::Truncated
                        &&& final(self).cursor() == i + 1
                    } else if item_val(s, i) < 0 {
                        &&& e == FtrError::Format
                        &&& final(self).cursor() == item_end(s, i)
                    } else if item_end(s, i) + item_val(s, i) > s.len() {
                        &&& e == FtrError::Truncated
                        &&& final(self).cursor() == item_end(s, i)
                    } else {
                        &&& e == FtrError::Encoding
                        &&& utf8_decode(
                            s.subrange(item_end(s, i), item_end(s, i) + item_val(s, i)),
                        ) is None
                        &&& final(self).cursor() == item_end(s, i) + item_val(s, i)
                    },
                }
            }),
    {
        let bytes = self.read_payload(0x03)?;
        match string_from_utf8(bytes) {
            Some(st) => Ok(st),
            None => Err(FtrError::Encoding),
        }
    }

    /// How long the whole underlying source is.
    pub fn source_len(&self) -> (r: usize)
        ensures
            r == self.data().len(),
    {
        self.bytes.len()
    }

    /// The byte offset of the next unconsumed byte, a buffered peeked
    /// byte counting as unconsumed.
    pub fn position(&self) -> (r: u64)
        requires
            self.wf(),
        ensures
            r == self.cursor(),
    {
        match self.peeked {
            Some(_) => (self.pos - 1) as u64,
            None => self.pos as u64,
        }
    }

    /// Look at the next byte without consuming it: the next consuming read
    /// starts with this same byte, and peeking again before such a read
    /// returns it once more.
    pub fn peek(&mut self) -> (r: Result<i64, FtrError>)
        requires
            old(self).wf(),
        ensures
            final(self).wf(),
            final(self).data() == old(self).data(),
            final(self).cursor() == old(self).cursor(),
            ({
                let s = old(self).data();
                let i = old(self).cursor();
                match r {
                    Ok(v) => i < s.len() && v == s[i],
                    Err(e) => e == FtrError::Truncated && i == s.len(),
                }
            }),
    {
        match self.peeked {
            Some(b) => Ok(b as i64),
            None => {
                if self.pos < self.bytes.len() {
                    let b = self.bytes[self.pos];
                    self.peeked = Some(b);
                    self.pos = self.pos + 1;
                    Ok(b as i64)
                } else {
                    Err(FtrError::Truncated)
                }
            },
        }
    }
}

/// 256 to the power `n`: one more than the largest `n`-byte value.
pub open spec fn pow256(n: nat) -> nat
    decreases n,
{
    if n == 0 {
        1
    } else {
        256 * pow256((n - 1) as nat)
    }
}

proof fn lemma_pow256_increases(a: nat, b: nat)
    requires
        a <= b,
    ensures
        pow256(a) <= pow256(b),
    decreases b,
{
    if a < b {
        lemma_pow256_increases(a, (b - 1) as nat);
    }
}

proof fn lemma_pow256_le_u64_max(n: nat)
    requires
        n <= 8,
    ensures
        pow256(n) <= 0x10000000000000000,
{
    lemma_pow256_increases(n, 8);
    reveal_with_fuel(pow256, 9);
    assert(pow256(8) == 0x10000000000000000);
}

/// The big-endian value of a byte sequence is below 256 to its length.
pub proof fn lemma_be_val_bound(s: Seq<u8>)
    ensures
        be_val(s) < pow256(s.len()),
    decreases s.len(),
{
    if s.len() > 0 {
        lemma_be_val_bound(s.drop_last());
    }
}

/// The `n`-byte big-endian encoding of `v`.
pub open spec fn be_bytes_of(v: nat, n: nat) -> Seq<u8>
    decreases n,
{
    if n == 0 {
        Seq::empty()
    } else {
        be_bytes_of(v / 256, (n - 1) as nat).push((v % 256) as u8)
    }
}

/// Encoding then re-reading `n` big-endian bytes gives the value back.
pub proof fn lemma_be_bytes_of_val(v: nat, n: nat)
    requires
        v < pow256(n),
    ensures
        be_bytes_of(v, n).len() == n,
        be_val(be_bytes_of(v, n)) == v,
    decreases n,
{
    if n > 0 {
        assert(v / 256 < pow256((n - 1) as nat) && 256 * (v / 256) + (v % 256) == v && v % 256
            < 256) by (nonlinear_arith)
            requires
                v < 256 * pow256((n - 1) as nat),
        ;
        lemma_be_bytes_of_val(v / 256, (n - 1) as nat);
        assert(be_bytes_of(v, n).drop_last() =~= be_bytes_of(v / 256, (n - 1) as nat));
    }
}

/// A header byte assembled from a major type and an argument splits back
/// into them.
proof fn lemma_header_byte(major: u8, arg: u8)
    requires
        major < 8,
        arg < 32,
    ensures
        major_of((major << 5) | arg) == major,
        arg_of((major << 5) | arg) == arg,
{
    assert(((((major << 5) | arg) >> 5) & 0x07) == major) by (bit_vector)
        requires
            major < 8,
            arg < 32,
    ;
    assert((((major << 5) | arg) & 0x1f) == arg) by (bit_vector)
        requires
            major < 8,
            arg < 32,
    ;
}

/// The canonical encoding of an unsigned value under a major type: the
/// value itself in the header's argument below 24, else the shortest of
/// the 1-, 2-, 4- or 8-byte long forms that holds it.
pub open spec fn uint_encoding(major: u8, v: nat) -> Seq<u8> {
    if v < 24 {
        seq![(major << 5) | (v as u8)]
    } else if v < 0x100 {
        seq![(major << 5) | 24] + be_bytes_of(v, 1)
    } else if v < 0x10000 {
        seq![(major << 5) | 25] + be_bytes_of(v, 2)
    } else if v < 0x100000000 {
        seq![(major << 5) | 26] + be_bytes_of(v, 4)
    } else {
        seq![(major << 5) | 27] + be_bytes_of(v, 8)
    }
}

/// Encoding and decoding agree: an unsigned value encoded canonically
/// under any major type decodes to exactly that value (folded to the
/// signed 64-bit it is returned as), as one whole item of that major
/// type, across all five width tiers.
pub proof fn lemma_uint_encoding_round_trip(major: u8, v: nat)
    requires
        major < 8,
        v < 0x10000000000000000,
    ensures
        ({
            let enc = uint_encoding(major, v);
            &&& has_item(enc, 0)
            &&& major_of(enc[0]) == major
            &&& item_end(enc, 0) == enc.len()
            &&& item_val(enc, 0) == as_signed64(v)
        }),
{
    reveal_with_fuel(pow256, 9);
    let enc = uint_encoding(major, v);
    if v < 24 {
        lemma_header_byte(major, v as u8);
        assert(enc.subrange(1, 1) =~= Seq::<u8>::empty());
    } else {
        let n: nat = if v < 0x100 {
            1
        } else if v < 0x10000 {
            2
        } else if v < 0x100000000 {
            4
        } else {
            8
        };
        let arg: u8 = if n == 1 {
            24
        } else if n == 2 {
            25
        } else if n == 4 {
            26
        } else {
            27
        };
        lemma_header_byte(major, arg);
        lemma_be_bytes_of_val(v, n);
        assert(enc.subrange(1, 1 + n as int) =~= be_bytes_of(v, n));
    }
}

} // verus!
