use vstd::prelude::*;
use crate::error::{eof, invalid, Error, ErrorKind};
use vstd::string::StringSliceAdditionalSpecFns;

verus! {

/// Byte order of multi-byte integers.
#[derive(Debug, Clone, Copy, PartialEq, Eq, Structural)]
pub enum Endian {
    Little,
    Big,
}

// ---------------------------------------------------------------------------
// Mathematical model of integer encodings
// ---------------------------------------------------------------------------

/// The unsigned value of two bytes in the given order.
pub open spec fn decode_u16(b: Seq<u8>, endian: Endian) -> int {
    match endian {
        Endian::Little => b[0] + 256 * b[1],
        Endian::Big => b[1] + 256 * b[0],
    }
}

/// The unsigned value of four bytes in the given order.
pub open spec fn decode_u32(b: Seq<u8>, endian: Endian) -> int {
    match endian {
        Endian::Little => b[0] + 256 * b[1] + 65536 * b[2] + 16777216 * b[3],
        Endian::Big => b[3] + 256 * b[2] + 65536 * b[1] + 16777216 * b[0],
    }
}

/// The unsigned value of eight bytes in the given order.
pub open spec fn decode_u64(b: Seq<u8>, endian: Endian) -> int {
    match endian {
        Endian::Little => decode_u32(b.subrange(0, 4), endian) + 4294967296 * decode_u32(
            b.subrange(4, 8),
            endian,
        ),
        Endian::Big => decode_u32(b.subrange(4, 8), endian) + 4294967296 * decode_u32(
            b.subrange(0, 4),
            endian,
        ),
    }
}

/// The 16-bit value stored at offset `o` of `b`.
pub open spec fn u16_at(b: Seq<u8>, o: int, endian: Endian) -> u16 {
    decode_u16(b.subrange(o, o + 2), endian) as u16
}

/// The 32-bit value stored at offset `o` of `b`.
pub open spec fn u32_at(b: Seq<u8>, o: int, endian: Endian) -> u32 {
    decode_u32(b.subrange(o, o + 4), endian) as u32
}

/// The 64-bit value stored at offset `o` of `b`.
pub open spec fn u64_at(b: Seq<u8>, o: int, endian: Endian) -> u64 {
    decode_u64(b.subrange(o, o + 8), endian) as u64
}

impl<'a> BinaryReader<'a> {
    /// The text of the zero-padded field of `width` bytes at `offset`. Fails with
    /// `UnexpectedEof` when the field runs past the end, and with `InvalidData` when its
    /// text is not UTF-8.
    pub fn read_fixed_string_at(&self, offset: usize, width: usize) -> (r: Result<String, Error>)
        ensures
            r is Ok <==> offset + width <= self.bytes().len() && fixed_string(
                self.bytes_at(offset as int, width as int),
            ) is Some,
            r matches Ok(s) ==> s@ == fixed_string(self.bytes_at(offset as int, width as int))->Some_0,
            r matches Err(e) ==> (e.kind == ErrorKind::UnexpectedEof <==> offset + width
                > self.bytes().len()),
            r matches Err(e) ==> e.kind == ErrorKind::UnexpectedEof || e.kind
                == ErrorKind::InvalidData,
    {
        let field = self.read_bytes_at(offset, width)?;
        let mut end: usize = 0;
        while end < width && field[end] != 0
            invariant
                end <= width,
                field@.len() == width,
                forall|j: int| 0 <= j < end ==> field@[j] != 0,
            decreases width - end,
        {
            end = end + 1;
        }
        let ghost f = field@;
        if end < width {
            assert(exists|i: int| 0 <= i < f.len() && f[i] == 0) by {
                assert(f[end as int] == 0);
            }
            let ghost chosen = c_string_end(f, 0)->Some_0;
            assert(chosen == end) by {
                if chosen < end {
                    assert(f[chosen] != 0);
                } else if chosen > end {
                    assert(f[end as int] == 0);
                }
            }
            assert(until_nul(f) == f.subrange(0, end as int));
        } else {
            assert(!exists|i: int| 0 <= i < f.len() && f[i] == 0);
            assert(f.subrange(0, end as int) =~= f);
        }
        match utf8_string(&field[0..end]) {
            Some(s) => Ok(s),
            None => Err(invalid("text field is not UTF-8")),
        }
    }
}

/// The two's complement value of a 16-bit pattern.
pub open spec fn signed16(v: int) -> int {
    if v < 32768 {
        v
    } else {
        v - 65536
    }
}

/// The two's complement value of a 32-bit pattern.
pub open spec fn signed32(v: int) -> int {
    if v < 2147483648 {
        v
    } else {
        v - 4294967296
    }
}

/// The bytes of a 16-bit value in the given order.
pub open spec fn encode_u16(v: u16, endian: Endian) -> Seq<u8> {
    let lo = (v % 256) as u8;
    let hi = (v / 256) as u8;
    match endian {
        Endian::Little => seq![lo, hi],
        Endian::Big => seq![hi, lo],
    }
}

/// The bytes of a 32-bit value in the given order.
pub open spec fn encode_u32(v: u32, endian: Endian) -> Seq<u8> {
    let b0 = (v % 256) as u8;
    let b1 = ((v / 256) % 256) as u8;
    let b2 = ((v / 65536) % 256) as u8;
    let b3 = (v / 16777216) as u8;
    match endian {
        Endian::Little => seq![b0, b1, b2, b3],
        Endian::Big => seq![b3, b2, b1, b0],
    }
}

/// The 16-bit pattern of a signed value.
pub open spec fn bits16(v: i16) -> u16 {
    if v < 0 {
        (v + 65536) as u16
    } else {
        v as u16
    }
}

/// The 32-bit pattern of a signed value.
pub open spec fn bits32(v: i32) -> u32 {
    if v < 0 {
        (v + 4294967296) as u32
    } else {
        v as u32
    }
}

/// Reading back the bytes written for a 16-bit value gives the value.
pub proof fn lemma_u16_roundtrip(v: u16, endian: Endian)
    ensures
        encode_u16(v, endian).len() == 2,
        decode_u16(encode_u16(v, endian), endian) == v,
{
}

/// Reading back the bytes written for a 32-bit value gives the value.
pub proof fn lemma_u32_roundtrip(v: u32, endian: Endian)
    ensures
        encode_u32(v, endian).len() == 4,
        decode_u32(encode_u32(v, endian), endian) == v,
{
    let b0 = v % 256;
    let b1 = (v / 256) % 256;
    let b2 = (v / 65536) % 256;
    let b3 = v / 16777216;
    assert(b0 + 256 * b1 + 65536 * b2 + 16777216 * b3 == v) by (nonlinear_arith)
        requires
            b0 == v % 256,
            b1 == (v / 256) % 256,
            b2 == (v / 65536) % 256,
            b3 == v / 16777216,
    ;
    assert(b3 < 256) by (nonlinear_arith)
        requires
            b3 == v / 16777216,
            v <= 0xffff_ffff,
    ;
}

/// The signed value of a signed value's bit pattern is the value itself.
pub proof fn lemma_signed_roundtrip(a: i16, b: i32)
    ensures
        signed16(bits16(a) as int) == a,
        signed32(bits32(b) as int) == b,
{
}

/// The bytes from the first zero byte at or after `start`, excluded, back to `start`;
/// `None` when no zero byte follows `start`.
pub open spec fn c_string_end(data: Seq<u8>, start: int) -> Option<int> {
    if exists|i: int| start <= i < data.len() && data[i] == 0 {
        Some(choose|i: int| start <= i < data.len() && data[i] == 0 && forall|j: int| start <= j < i ==> data[j] != 0)
    } else {
        None
    }
}

/// The text of the zero-terminated UTF-8 string at `start`, if there is one.
pub open spec fn c_string_at(data: Seq<u8>, start: int) -> Option<Seq<char>> {
    if 0 <= start <= data.len() {
        match c_string_end(data, start) {
            Some(end) => if vstd::utf8::valid_utf8(data.subrange(start, end)) {
                Some(vstd::utf8::decode_utf8(data.subrange(start, end)))
            } else {
                None
            },
            None => None,
        }
    } else {
        None
    }
}

/// The bytes of `field` before its first zero byte, or all of them when it holds none.
pub open spec fn until_nul(field: Seq<u8>) -> Seq<u8> {
    match c_string_end(field, 0) {
        Some(end) => field.subrange(0, end),
        None => field,
    }
}

/// The text of a fixed-width, zero-padded UTF-8 field, if it is valid UTF-8.
pub open spec fn fixed_string(field: Seq<u8>) -> Option<Seq<char>> {
    if vstd::utf8::valid_utf8(until_nul(field)) {
        Some(vstd::utf8::decode_utf8(until_nul(field)))
    } else {
        None
    }
}

// ---------------------------------------------------------------------------
// Trusted conversions from std
// ---------------------------------------------------------------------------

/// Calls `std::str::from_utf8`: per its documentation it succeeds exactly when the
/// bytes are valid UTF-8, and the text it returns is the decoding of those bytes.
#[verifier::external_body]
fn str_from_utf8(bytes: &[u8]) -> (r: Option<&str>)
    ensures
        r is Some <==> vstd::utf8::valid_utf8(bytes@),
        r matches Some(s) ==> s@ == vstd::utf8::decode_utf8(bytes@),
{
    std::str::from_utf8(bytes).ok()
}

/// The decoded text of `bytes`, or `None` when they are not valid UTF-8.
pub fn utf8_string(bytes: &[u8]) -> (r: Option<String>)
    ensures
        r is Some <==> vstd::utf8::valid_utf8(bytes@),
        r matches Some(s) ==> s@ == vstd::utf8::decode_utf8(bytes@),
{
    match str_from_utf8(bytes) {
        Some(s) => Some(s.to_owned()),
        None => None,
    }
}

// ---------------------------------------------------------------------------
// Reader
// ---------------------------------------------------------------------------

/// A cursor over a byte slice that decodes integers in a fixed byte order.
pub struct BinaryReader<'a> {
    data: &'a [u8],
    position: usize,
    endian: Endian,
}

impl<'a> BinaryReader<'a> {
    /// The bytes that are read.
    pub closed spec fn bytes(&self) -> Seq<u8> {
        self.data@
    }

    /// The cursor position.
    pub closed spec fn pos(&self) -> int {
        self.position as int
    }

    /// The byte order used for decoding.
    pub closed spec fn order(&self) -> Endian {
        self.endian
    }

    /// The reader's state: the cursor is never past the end.
    pub open spec fn wf(&self) -> bool {
        0 <= self.pos() <= self.bytes().len() <= usize::MAX
    }

    /// The `n` bytes at `p` in the input.
    pub open spec fn bytes_at(&self, p: int, n: int) -> Seq<u8> {
        self.bytes().subrange(p, p + n)
    }

    /// A little-endian reader positioned at the start of `data`.
    pub fn new(data: &'a [u8]) -> (r: Self)
        ensures
            r.wf(),
            r.bytes() == data@,
            r.pos() == 0,
            r.order() == Endian::Little,
    {
        let _n = data.len();
        BinaryReader { data, position: 0, endian: Endian::Little }
    }

    /// A reader with the given byte order positioned at the start of `data`.
    pub fn with_endian(data: &'a [u8], endian: Endian) -> (r: Self)
        ensures
            r.wf(),
            r.bytes() == data@,
            r.pos() == 0,
            r.order() == endian,
    {
        let _n = data.len();
        BinaryReader { data, position: 0, endian }
    }

    /// The cursor position.
    pub fn position(&self) -> (p: usize)
        ensures
            p == self.pos(),
    {
        self.position
    }

    /// The length of the input.
    pub fn len(&self) -> (n: usize)
        ensures
            n == self.bytes().len(),
    {
        self.data.len()
    }

    /// The byte order used for decoding.
    pub fn endian(&self) -> (e: Endian)
        ensures
            e == self.order(),
    {
        self.endian
    }

    /// Moves the cursor to `position`; fails, leaving the reader unchanged, when
    /// `position` is past the end of the input.
    pub fn seek(&mut self, position: usize) -> (r: Result<(), Error>)
        requires
            old(self).wf(),
        ensures
            final(self).wf(),
            final(self).bytes() == old(self).bytes(),
            final(self).order() == old(self).order(),
            r is Ok <==> position <= old(self).bytes().len(),
            r is Ok ==> final(self).pos() == position,
            r is Err ==> final(self).pos() == old(self).pos() && r->Err_0.kind
                == ErrorKind::UnexpectedEof,
    {
        if position > self.data.len() {
            return Err(eof("seek past end of input"));
        }
        self.position = position;
        Ok(())
    }

    /// Advances the cursor by `count` bytes; fails, leaving the reader unchanged,
    /// when fewer than `count` bytes remain.
    pub fn skip(&mut self, count: usize) -> (r: Result<(), Error>)
        requires
            old(self).wf(),
        ensures
            final(self).wf(),
            final(self).bytes() == old(self).bytes(),
            final(self).order() == old(self).order(),
            r is Ok <==> old(self).pos() + count <= old(self).bytes().len(),
            r is Ok ==> final(self).pos() == old(self).pos() + count,
            r is Err ==> final(self).pos() == old(self).pos() && r->Err_0.kind
                == ErrorKind::UnexpectedEof,
    {
        if count > self.data.len() - self.position {
            return Err(eof("skip past end of input"));
        }
        self.position = self.position + count;
        Ok(())
    }

    /// The `count` bytes at `offset`, without moving the cursor.
    pub fn read_bytes_at(&self, offset: usize, count: usize) -> (r: Result<&'a [u8], Error>)
        ensures
            r is Ok <==> offset + count <= self.bytes().len(),
            r matches Ok(b) ==> b@ == self.bytes_at(offset as int, count as int),
            r matches Err(e) ==> e.kind == ErrorKind::UnexpectedEof,
    {
        if offset > self.data.len() || count > self.data.len() - offset {
            return Err(eof("read past end of input"));
        }
        Ok(&self.data[offset..offset + count])
    }

    /// The bytes from `start` up to `end`, without moving the cursor.
    pub fn slice(&self, start: usize, end: usize) -> (r: Result<&'a [u8], Error>)
        ensures
            r is Ok <==> start <= end <= self.bytes().len(),
            r matches Ok(b) ==> b@ == self.bytes().subrange(start as int, end as int),
            r matches Err(e) ==> e.kind == ErrorKind::UnexpectedEof,
    {
        if start > end || end > self.data.len() {
            return Err(eof("slice outside input"));
        }
        Ok(&self.data[start..end])
    }

    /// The next `count` bytes; the cursor moves past them.
    pub fn read_bytes(&mut self, count: usize) -> (r: Result<&'a [u8], Error>)
        requires
            old(self).wf(),
        ensures
            final(self).wf(),
            final(self).bytes() == old(self).bytes(),
            final(self).order() == old(self).order(),
            r is Ok <==> old(self).pos() + count <= old(self).bytes().len(),
            r matches Ok(b) ==> b@ == old(self).bytes_at(old(self).pos(), count as int)
                && final(self).pos() == old(self).pos() + count,
            r matches Err(e) ==> e.kind == ErrorKind::UnexpectedEof && final(self).pos()
                == old(self).pos(),
    {
        let b = self.read_bytes_at(self.position, count)?;
        self.position = self.position + count;
        Ok(b)
    }

    /// The byte at `offset`.
    pub fn read_u8_at(&self, offset: usize) -> (r: Result<u8, Error>)
        ensures
            r is Ok <==> offset < self.bytes().len(),
            r matches Ok(v) ==> v == self.bytes()[offset as int],
            r matches Err(e) ==> e.kind == ErrorKind::UnexpectedEof,
    {
        if offset >= self.data.len() {
            return Err(eof("read past end of input"));
        }
        Ok(self.data[offset])
    }

    /// The 16-bit value at `offset`.
    pub fn read_u16_at(&self, offset: usize) -> (r: Result<u16, Error>)
        ensures
            r is Ok <==> offset + 2 <= self.bytes().len(),
            r matches Ok(v) ==> v == decode_u16(self.bytes_at(offset as int, 2), self.order()),
            r matches Err(e) ==> e.kind == ErrorKind::UnexpectedEof,
    {
        let b = self.read_bytes_at(offset, 2)?;
        let b0 = b[0] as u16;
        let b1 = b[1] as u16;
        match self.endian {
            Endian::Little => Ok(b0 + 256 * b1),
            Endian::Big => Ok(b1 + 256 * b0),
        }
    }

    /// The 32-bit value at `offset`.
    pub fn read_u32_at(&self, offset: usize) -> (r: Result<u32, Error>)
        ensures
            r is Ok <==> offset + 4 <= self.bytes().len(),
            r matches Ok(v) ==> v == decode_u32(self.bytes_at(offset as int, 4), self.order()),
            r matches Err(e) ==> e.kind == ErrorKind::UnexpectedEof,
    {
        let b = self.read_bytes_at(offset, 4)?;
        let b0 = b[0] as u32;
        let b1 = b[1] as u32;
        let b2 = b[2] as u32;
        let b3 = b[3] as u32;
        match self.endian {
            Endian::Little => Ok(b0 + 256 * b1 + 65536 * b2 + 16777216 * b3),
            Endian::Big => Ok(b3 + 256 * b2 + 65536 * b1 + 16777216 * b0),
        }
    }

    /// The 64-bit value at `offset`.
    pub fn read_u64_at(&self, offset: usize) -> (r: Result<u64, Error>)
        ensures
            r is Ok <==> offset + 8 <= self.bytes().len(),
            r matches Ok(v) ==> v == decode_u64(self.bytes_at(offset as int, 8), self.order()),
            r matches Err(e) ==> e.kind == ErrorKind::UnexpectedEof,
    {
        if offset > self.data.len() || 8 > self.data.len() - offset {
            return Err(eof("read past end of input"));
        }
        let first = self.read_u32_at(offset)?;
        let second = self.read_u32_at(offset + 4)?;
        let ghost b = self.bytes_at(offset as int, 8);
        assert(b.subrange(0, 4) =~= self.bytes_at(offset as int, 4));
        assert(b.subrange(4, 8) =~= self.bytes_at(offset + 4, 4));
        match self.endian {
            Endian::Little => Ok(first as u64 + 4294967296 * second as u64),
            Endian::Big => Ok(second as u64 + 4294967296 * first as u64),
        }
    }

    /// The four bytes at `offset`.
    pub fn read_array4_at(&self, offset: usize) -> (r: Result<[u8; 4], Error>)
        ensures
            r is Ok <==> offset + 4 <= self.bytes().len(),
            r matches Ok(a) ==> a@ == self.bytes_at(offset as int, 4),
            r matches Err(e) ==> e.kind == ErrorKind::UnexpectedEof,
    {
        let b = self.read_bytes_at(offset, 4)?;
        let a = [b[0], b[1], b[2], b[3]];
        assert(a@ =~= b@);
        Ok(a)
    }

    /// The next byte.
    pub fn read_u8(&mut self) -> (r: Result<u8, Error>)
        requires
            old(self).wf(),
        ensures
            final(self).wf(),
            final(self).bytes() == old(self).bytes(),
            final(self).order() == old(self).order(),
            r is Ok <==> old(self).pos() + 1 <= old(self).bytes().len(),
            r matches Ok(v) ==> v == old(self).bytes()[old(self).pos()] && final(self).pos()
                == old(self).pos() + 1,
            r matches Err(e) ==> e.kind == ErrorKind::UnexpectedEof && final(self).pos()
                == old(self).pos(),
    {
        let v = self.read_u8_at(self.position)?;
        self.position = self.position + 1;
        Ok(v)
    }

    /// The next 16-bit value.
    pub fn read_u16(&mut self) -> (r: Result<u16, Error>)
        requires
            old(self).wf(),
        ensures
            final(self).wf(),
            final(self).bytes() == old(self).bytes(),
            final(self).order() == old(self).order(),
            r is Ok <==> old(self).pos() + 2 <= old(self).bytes().len(),
            r matches Ok(v) ==> v == decode_u16(old(self).bytes_at(old(self).pos(), 2), old(self).order())
                && final(self).pos() == old(self).pos() + 2,
            r matches Err(e) ==> e.kind == ErrorKind::UnexpectedEof && final(self).pos()
                == old(self).pos(),
    {
        let v = self.read_u16_at(self.position)?;
        self.position = self.position + 2;
        Ok(v)
    }

    /// The next 16-bit value, as two's complement.
    pub fn read_i16(&mut self) -> (r: Result<i16, Error>)
        requires
            old(self).wf(),
        ensures
            final(self).wf(),
            final(self).bytes() == old(self).bytes(),
            final(self).order() == old(self).order(),
            r is Ok <==> old(self).pos() + 2 <= old(self).bytes().len(),
            r matches Ok(v) ==> v == signed16(decode_u16(old(self).bytes_at(old(self).pos(), 2), old(self).order()))
                && final(self).pos() == old(self).pos() + 2,
            r matches Err(e) ==> e.kind == ErrorKind::UnexpectedEof && final(self).pos()
                == old(self).pos(),
    {
        let v = self.read_u16()?;
        Ok(to_i16(v))
    }

    /// The next 32-bit value.
    pub fn read_u32(&mut self) -> (r: Result<u32, Error>)
        requires
            old(self).wf(),
        ensures
            final(self).wf(),
            final(self).bytes() == old(self).bytes(),
            final(self).order() == old(self).order(),
            r is Ok <==> old(self).pos() + 4 <= old(self).bytes().len(),
            r matches Ok(v) ==> v == decode_u32(old(self).bytes_at(old(self).pos(), 4), old(self).order())
                && final(self).pos() == old(self).pos() + 4,
            r matches Err(e) ==> e.kind == ErrorKind::UnexpectedEof && final(self).pos()
                == old(self).pos(),
    {
        let v = self.read_u32_at(self.position)?;
        self.position = self.position + 4;
        Ok(v)
    }

    /// The next 32-bit value, as two's complement.
    pub fn read_i32(&mut self) -> (r: Result<i32, Error>)
        requires
            old(self).wf(),
        ensures
            final(self).wf(),
            final(self).bytes() == old(self).bytes(),
            final(self).order() == old(self).order(),
            r is Ok <==> old(self).pos() + 4 <= old(self).bytes().len(),
            r matches Ok(v) ==> v == signed32(decode_u32(old(self).bytes_at(old(self).pos(), 4), old(self).order()))
                && final(self).pos() == old(self).pos() + 4,
            r matches Err(e) ==> e.kind == ErrorKind::UnexpectedEof && final(self).pos()
                == old(self).pos(),
    {
        let v = self.read_u32()?;
        Ok(to_i32(v))
    }

    /// The next 64-bit value.
    pub fn read_u64(&mut self) -> (r: Result<u64, Error>)
        requires
            old(self).wf(),
        ensures
            final(self).wf(),
            final(self).bytes() == old(self).bytes(),
            final(self).order() == old(self).order(),
            r is Ok <==> old(self).pos() + 8 <= old(self).bytes().len(),
            r matches Ok(v) ==> v == decode_u64(old(self).bytes_at(old(self).pos(), 8), old(self).order())
                && final(self).pos() == old(self).pos() + 8,
            r matches Err(e) ==> e.kind == ErrorKind::UnexpectedEof && final(self).pos()
                == old(self).pos(),
    {
        let v = self.read_u64_at(self.position)?;
        self.position = self.position + 8;
        Ok(v)
    }

    /// The zero-terminated UTF-8 string at `offset`, without moving the cursor.
    /// Fails with `UnexpectedEof` when no zero byte follows `offset` and with
    /// `InvalidData` when the bytes before it are not UTF-8.
    pub fn read_c_string_at(&self, offset: usize) -> (r: Result<String, Error>)
        ensures
            r is Ok <==> c_string_at(self.bytes(), offset as int) is Some,
            r matches Ok(s) ==> s@ == c_string_at(self.bytes(), offset as int)->Some_0,
            r matches Err(e) ==> (e.kind == ErrorKind::UnexpectedEof <==> (offset > self.bytes().len()
                || c_string_end(self.bytes(), offset as int) is None)),
            r matches Err(e) ==> e.kind == ErrorKind::UnexpectedEof || e.kind
                == ErrorKind::InvalidData,
    {
        let n = self.data.len();
        if offset > n {
            return Err(eof("string offset past end of input"));
        }
        let mut end = offset;
        while end < n && self.data[end] != 0
            invariant
                offset <= end <= n,
                n == self.bytes().len(),
                forall|j: int| offset <= j < end ==> self.bytes()[j] != 0,
            decreases n - end,
        {
            end = end + 1;
        }
        if end == n {
            assert(!exists|i: int| offset <= i < n && self.bytes()[i] == 0);
            return Err(eof("unterminated string"));
        }
        let ghost data = self.bytes();
        assert(exists|i: int| offset <= i < data.len() && data[i] == 0);
        let ghost chosen = c_string_end(data, offset as int)->Some_0;
        assert(chosen == end) by {
            if chosen < end {
                assert(data[chosen] != 0);
            } else if chosen > end {
                assert(data[end as int] == 0);
            }
        }
        match utf8_string(&self.data[offset..end]) {
            Some(s) => Ok(s),
            None => Err(invalid("string is not UTF-8")),
        }
    }
}

/// The two's complement value of a 16-bit pattern.
pub fn to_i16(v: u16) -> (r: i16)
    ensures
        r == signed16(v as int),
{
    if v < 32768 {
        v as i16
    } else {
        ((v - 32768) as i16) - 32767 - 1
    }
}

/// The two's complement value of a 32-bit pattern.
pub fn to_i32(v: u32) -> (r: i32)
    ensures
        r == signed32(v as int),
{
    if v < 2147483648 {
        v as i32
    } else {
        ((v - 2147483648) as i32) - 2147483647 - 1
    }
}

/// The bit pattern of a 16-bit signed value.
pub fn from_i16(v: i16) -> (r: u16)
    ensures
        r == bits16(v),
{
    if v < 0 {
        ((v as i32) + 65536) as u16
    } else {
        v as u16
    }
}

/// The bit pattern of a 32-bit signed value.
pub fn from_i32(v: i32) -> (r: u32)
    ensures
        r == bits32(v),
{
    if v < 0 {
        ((v as i64) + 4294967296) as u32
    } else {
        v as u32
    }
}

// ---------------------------------------------------------------------------
// Writer
// ---------------------------------------------------------------------------

/// A growable output buffer that encodes integers in a fixed byte order.
pub struct BinaryWriter {
    data: Vec<u8>,
    endian: Endian,
}

impl BinaryWriter {
    /// The bytes written so far.
    pub closed spec fn bytes(&self) -> Seq<u8> {
        self.data@
    }

    /// The byte order used for encoding.
    pub closed spec fn order(&self) -> Endian {
        self.endian
    }

    /// An empty little-endian writer.
    pub fn new() -> (w: Self)
        ensures
            w.bytes() == Seq::<u8>::empty(),
            w.order() == Endian::Little,
    {
        BinaryWriter { data: Vec::new(), endian: Endian::Little }
    }

    /// An empty writer with the given byte order.
    pub fn with_endian(endian: Endian) -> (w: Self)
        ensures
            w.bytes() == Seq::<u8>::empty(),
            w.order() == endian,
    {
        BinaryWriter { data: Vec::new(), endian }
    }

    /// The number of bytes written so far.
    pub fn position(&self) -> (p: usize)
        ensures
            p == self.bytes().len(),
    {
        self.data.len()
    }

    /// The bytes written.
    pub fn into_inner(self) -> (v: Vec<u8>)
        ensures
            v@ == self.bytes(),
    {
        self.data
    }

    /// Appends `value`.
    pub fn write_bytes(&mut self, value: &[u8])
        ensures
            final(self).bytes() == old(self).bytes() + value@,
            final(self).order() == old(self).order(),
    {
        let ghost start = self.data@;
        let mut i: usize = 0;
        while i < value.len()
            invariant
                i <= value@.len(),
                self.data@ == start + value@.subrange(0, i as int),
                self.endian == old(self).endian,
            decreases value@.len() - i,
        {
            self.data.push(value[i]);
            i = i + 1;
            assert(self.data@ =~= start + value@.subrange(0, i as int));
        }
        assert(value@.subrange(0, value@.len() as int) =~= value@);
    }

    /// Drops everything after the first `position` bytes; a position past the end
    /// leaves the writer unchanged.
    pub fn truncate(&mut self, position: usize)
        ensures
            position <= old(self).bytes().len() ==> final(self).bytes() == old(self).bytes().subrange(
                0,
                position as int,
            ),
            position > old(self).bytes().len() ==> final(self).bytes() == old(self).bytes(),
            final(self).order() == old(self).order(),
    {
        self.data.truncate(position);
    }

    /// Appends one byte.
    pub fn write_u8(&mut self, value: u8)
        ensures
            final(self).bytes() == old(self).bytes().push(value),
            final(self).order() == old(self).order(),
    {
        self.data.push(value);
    }

    /// Appends a 16-bit value in the writer's byte order.
    pub fn write_u16(&mut self, value: u16)
        ensures
            final(self).bytes() == old(self).bytes() + encode_u16(value, old(self).order()),
            final(self).order() == old(self).order(),
    {
        let lo = (value % 256) as u8;
        let hi = (value / 256) as u8;
        match self.endian {
            Endian::Little => {
                self.data.push(lo);
                self.data.push(hi);
            },
            Endian::Big => {
                self.data.push(hi);
                self.data.push(lo);
            },
        }
        assert(self.data@ =~= old(self).bytes() + encode_u16(value, old(self).order()));
    }

    /// Appends a 16-bit signed value in the writer's byte order.
    pub fn write_i16(&mut self, value: i16)
        ensures
            final(self).bytes() == old(self).bytes() + encode_u16(bits16(value), old(self).order()),
            final(self).order() == old(self).order(),
    {
        self.write_u16(from_i16(value));
    }

    /// Appends a 32-bit value in the writer's byte order.
    pub fn write_u32(&mut self, value: u32)
        ensures
            final(self).bytes() == old(self).bytes() + encode_u32(value, old(self).order()),
            final(self).order() == old(self).order(),
    {
        let b0 = (value % 256) as u8;
        let b1 = ((value / 256) % 256) as u8;
        let b2 = ((value / 65536) % 256) as u8;
        let b3 = (value / 16777216) as u8;
        match self.endian {
            Endian::Little => {
                self.data.push(b0);
                self.data.push(b1);
                self.data.push(b2);
                self.data.push(b3);
            },
            Endian::Big => {
                self.data.push(b3);
                self.data.push(b2);
                self.data.push(b1);
                self.data.push(b0);
            },
        }
        assert(self.data@ =~= old(self).bytes() + encode_u32(value, old(self).order()));
    }

    /// Appends a 32-bit signed value in the writer's byte order.
    pub fn write_i32(&mut self, value: i32)
        ensures
            final(self).bytes() == old(self).bytes() + encode_u32(bits32(value), old(self).order()),
            final(self).order() == old(self).order(),
    {
        self.write_u32(from_i32(value));
    }

    /// Overwrites the 32-bit value at `at`, which lies inside the output, in the
    /// writer's byte order.
    pub fn patch_u32(&mut self, at: usize, value: u32)
        requires
            at + 4 <= old(self).bytes().len(),
        ensures
            final(self).bytes() == old(self).bytes().subrange(0, at as int) + encode_u32(value, old(self).order())
                + old(self).bytes().subrange(at + 4, old(self).bytes().len() as int),
            final(self).order() == old(self).order(),
    {
        let b0 = (value % 256) as u8;
        let b1 = ((value / 256) % 256) as u8;
        let b2 = ((value / 65536) % 256) as u8;
        let b3 = (value / 16777216) as u8;
        let (x0, x1, x2, x3) = match self.endian {
            Endian::Little => (b0, b1, b2, b3),
            Endian::Big => (b3, b2, b1, b0),
        };
        let _n = self.data.len();
        self.data.set(at, x0);
        self.data.set(at + 1, x1);
        self.data.set(at + 2, x2);
        self.data.set(at + 3, x3);
        assert(self.data@ =~= old(self).bytes().subrange(0, at as int) + encode_u32(value, old(self).order())
            + old(self).bytes().subrange(at + 4, old(self).bytes().len() as int));
    }

    /// Appends the UTF-8 bytes of `value` followed by a zero byte.
    pub fn write_c_string(&mut self, value: &str)
        ensures
            final(self).bytes() == old(self).bytes() + value.spec_bytes() + seq![0u8],
            final(self).order() == old(self).order(),
    {
        self.write_bytes(value.as_bytes());
        self.write_u8(0);
    }
}

} // verus!
