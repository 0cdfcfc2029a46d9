//! Reading and writing the little-endian values and length-prefixed
//! strings of bytecode and atom files.
use vstd::prelude::*;
use vstd::utf8::*;

use crate::atom::{AtomError, AtomResult, AtomTag, ErrorModel, Opcode};
use crate::text::string_from_utf8;

verus! {

/// Little-endian bytes of a 16-bit value.
pub open spec fn le16(v: u16) -> Seq<u8> {
    seq![(v & 0xff) as u8, (v >> 8) as u8]
}

/// Little-endian bytes of a 32-bit value.
pub open spec fn le32(v: u32) -> Seq<u8> {
    seq![(v & 0xff) as u8, ((v >> 8) & 0xff) as u8, ((v >> 16) & 0xff) as u8, (v >> 24) as u8]
}

/// Little-endian bytes of a 64-bit value.
pub open spec fn le64(v: u64) -> Seq<u8> {
    seq![
        (v & 0xff) as u8,
        ((v >> 8) & 0xff) as u8,
        ((v >> 16) & 0xff) as u8,
        ((v >> 24) & 0xff) as u8,
        ((v >> 32) & 0xff) as u8,
        ((v >> 40) & 0xff) as u8,
        ((v >> 48) & 0xff) as u8,
        (v >> 56) as u8,
    ]
}

/// The 16-bit value of two little-endian bytes.
pub open spec fn from_le16(b0: u8, b1: u8) -> u16 {
    (b0 as u16) | ((b1 as u16) << 8)
}

/// The 32-bit value of four little-endian bytes.
pub open spec fn from_le32(b0: u8, b1: u8, b2: u8, b3: u8) -> u32 {
    (b0 as u32) | ((b1 as u32) << 8) | ((b2 as u32) << 16) | ((b3 as u32) << 24)
}

/// The 64-bit value of eight little-endian bytes.
pub open spec fn from_le64(b: Seq<u8>) -> u64 {
    (b[0] as u64) | ((b[1] as u64) << 8) | ((b[2] as u64) << 16) | ((b[3] as u64) << 24) | ((
    b[4] as u64) << 32) | ((b[5] as u64) << 40) | ((b[6] as u64) << 48) | ((b[7] as u64) << 56)
}

/// A value that can be read from the front of a byte buffer.
pub trait Readable: Sized {
    spec fn spec_size() -> nat;

    spec fn spec_from_bytes(bytes: Seq<u8>) -> Self;

    fn size() -> (n: usize)
        ensures
            n == Self::spec_size(),
    ;

    fn from_bytes(bytes: &[u8]) -> (r: Self)
        requires
            bytes@.len() >= Self::spec_size(),
        ensures
            r == Self::spec_from_bytes(bytes@),
    ;
}

impl Readable for u8 {
    open spec fn spec_size() -> nat {
        1
    }

    open spec fn spec_from_bytes(bytes: Seq<u8>) -> u8 {
        bytes[0]
    }

    fn size() -> (n: usize) {
        1
    }

    fn from_bytes(bytes: &[u8]) -> (r: u8) {
        bytes[0]
    }
}

impl Readable for u16 {
    open spec fn spec_size() -> nat {
        2
    }

    open spec fn spec_from_bytes(bytes: Seq<u8>) -> u16 {
        from_le16(bytes[0], bytes[1])
    }

    fn size() -> (n: usize) {
        2
    }

    fn from_bytes(bytes: &[u8]) -> (r: u16) {
        (bytes[0] as u16) | ((bytes[1] as u16) << 8)
    }
}

impl Readable for i16 {
    open spec fn spec_size() -> nat {
        2
    }

    open spec fn spec_from_bytes(bytes: Seq<u8>) -> i16 {
        from_le16(bytes[0], bytes[1]) as i16
    }

    fn size() -> (n: usize) {
        2
    }

    fn from_bytes(bytes: &[u8]) -> (r: i16) {
        ((bytes[0] as u16) | ((bytes[1] as u16) << 8)) as i16
    }
}

impl Readable for u32 {
    open spec fn spec_size() -> nat {
        4
    }

    open spec fn spec_from_bytes(bytes: Seq<u8>) -> u32 {
        from_le32(bytes[0], bytes[1], bytes[2], bytes[3])
    }

    fn size() -> (n: usize) {
        4
    }

    fn from_bytes(bytes: &[u8]) -> (r: u32) {
        (bytes[0] as u32) | ((bytes[1] as u32) << 8) | ((bytes[2] as u32) << 16) | ((
        bytes[3] as u32) << 24)
    }
}

/// Eight bytes: the bits of a 64-bit float.
impl Readable for u64 {
    open spec fn spec_size() -> nat {
        8
    }

    open spec fn spec_from_bytes(bytes: Seq<u8>) -> u64 {
        from_le64(bytes)
    }

    fn size() -> (n: usize) {
        8
    }

    fn from_bytes(bytes: &[u8]) -> (r: u64) {
        (bytes[0] as u64) | ((bytes[1] as u64) << 8) | ((bytes[2] as u64) << 16) | ((
        bytes[3] as u64) << 24) | ((bytes[4] as u64) << 32) | ((bytes[5] as u64) << 40) | ((
        bytes[6] as u64) << 48) | ((bytes[7] as u64) << 56)
    }
}

/// Reads values from the front of a byte slice.
pub struct Reader<'a> {
    data: &'a [u8],
}

/// What `fetch_str` reads from the front of `d`: a 16-bit length, then that
/// many bytes of UTF-8.
pub open spec fn spec_fetch_str(d: Seq<u8>) -> Result<Seq<char>, ErrorModel> {
    if d.len() < 2 {
        Err(ErrorModel::MalformedBytecode)
    } else {
        let len = from_le16(d[0], d[1]) as int;
        let bytes = d.subrange(2, 2 + len);
        if d.len() < 2 + len || !valid_utf8(bytes) {
            Err(ErrorModel::MalformedBytecode)
        } else {
            Ok(decode_utf8(bytes))
        }
    }
}

/// What remains of `d` after `fetch_str`, whether it succeeded or not.
pub open spec fn spec_fetch_str_rest(d: Seq<u8>) -> Seq<u8> {
    if d.len() < 2 {
        d
    } else {
        let len = from_le16(d[0], d[1]) as int;
        if d.len() < 2 + len {
            d.skip(2)
        } else {
            d.skip(2 + len)
        }
    }
}

impl<'a> View for Reader<'a> {
    type V = Seq<u8>;

    closed spec fn view(&self) -> Seq<u8> {
        self.data@
    }
}

impl<'a> Reader<'a> {
    pub fn new(data: &'a [u8]) -> (r: Reader<'a>)
        ensures
            r@ == data@,
    {
        return Self { data };
    }

    /// Reads one value, or fails with `MalformedBytecode`, reading nothing,
    /// when fewer bytes remain than the value takes.
    pub fn fetch<T: Readable>(&mut self) -> (r: AtomResult<T>)
        ensures
            old(self)@.len() >= T::spec_size() ==> (r matches Ok(v) && v == T::spec_from_bytes(
                old(self)@.take(T::spec_size() as int),
            ) && final(self)@ == old(self)@.skip(T::spec_size() as int)),
            old(self)@.len() < T::spec_size() ==> (r matches Err(e) && e@
                == ErrorModel::MalformedBytecode && final(self)@ == old(self)@),
    {
        let size = T::size();
        if self.data.len() < size {
            return Err(AtomError::MalformedBytecode);
        }
        let (bytes, rest) = self.data.split_at(size);
        self.data = rest;
        assert(rest@ =~= old(self)@.skip(size as int));
        assert(bytes@ =~= old(self)@.take(size as int));
        Ok(T::from_bytes(bytes))
    }

    /// Reads `n` bytes, or fails with `MalformedBytecode`, reading nothing,
    /// when fewer remain.
    pub fn fetch_vec(&mut self, n: usize) -> (r: AtomResult<Vec<u8>>)
        ensures
            old(self)@.len() >= n ==> (r matches Ok(v) && v@ == old(self)@.take(n as int)
                && final(self)@ == old(self)@.skip(n as int)),
            old(self)@.len() < n ==> (r matches Err(e) && e@ == ErrorModel::MalformedBytecode
                && final(self)@ == old(self)@),
    {
        if self.data.len() < n {
            return Err(AtomError::MalformedBytecode);
        }
        let (bytes, rest) = self.data.split_at(n);
        self.data = rest;
        assert(rest@ =~= old(self)@.skip(n as int));
        assert(bytes@ =~= old(self)@.take(n as int));
        Ok(vstd::slice::slice_to_vec(bytes))
    }

    /// Reads a string: its length in bytes as a 16-bit value, then its UTF-8
    /// bytes.
    pub fn fetch_str(&mut self) -> (r: AtomResult<String>)
        ensures
            spec_fetch_str(old(self)@) matches Ok(s) ==> (r matches Ok(t) && t@ == s),
            spec_fetch_str(old(self)@) matches Err(m) ==> (r matches Err(e) && e@ == m),
            final(self)@ == spec_fetch_str_rest(old(self)@),
    {
        if self.data.len() == 0 {
            return Err(AtomError::MalformedBytecode);
        }
        let ghost d = self@;
        let len = self.fetch::<u16>()?;
        assert(d.take(2)[0] == d[0] && d.take(2)[1] == d[1]);
        let bytes = self.fetch_vec(len as usize)?;
        assert(d.skip(2).skip(len as int) =~= d.skip(2 + len as int));
        assert(bytes@ =~= d.subrange(2, 2 + len as int));
        match string_from_utf8(bytes) {
            Some(s) => Ok(s),
            None => Err(AtomError::MalformedBytecode),
        }
    }

    /// Number of bytes not yet read.
    pub fn len(&self) -> (n: usize)
        ensures
            n == self@.len(),
    {
        self.data.len()
    }
}

/// A value that can be appended to a byte buffer.
pub trait Writable {
    spec fn spec_bytes(&self) -> Seq<u8>;

    fn write_to(&self, buf: &mut Vec<u8>)
        ensures
            final(buf)@ == old(buf)@ + self.spec_bytes(),
    ;

    fn to_bytes(&self) -> (r: Vec<u8>)
        ensures
            r@ == self.spec_bytes(),
    {
        let mut buf = Vec::new();
        self.write_to(&mut buf);
        assert(buf@ =~= self.spec_bytes());
        buf
    }
}

/// Appends the bytes of `bytes` to `buf`.
pub fn push_bytes(buf: &mut Vec<u8>, bytes: &[u8])
    ensures
        final(buf)@ == old(buf)@ + bytes@,
{
    let mut i: usize = 0;
    while i < bytes.len()
        invariant
            i <= bytes@.len(),
            buf@ == old(buf)@ + bytes@.take(i as int),
        decreases bytes@.len() - i,
    {
        buf.push(bytes[i]);
        assert(bytes@.take(i + 1) =~= bytes@.take(i as int).push(bytes@[i as int]));
        i = i + 1;
    }
    assert(bytes@.take(i as int) =~= bytes@);
}

impl Writable for u8 {
    open spec fn spec_bytes(&self) -> Seq<u8> {
        seq![*self]
    }

    fn write_to(&self, buf: &mut Vec<u8>) {
        buf.push(*self);
    }
}

impl Writable for u16 {
    open spec fn spec_bytes(&self) -> Seq<u8> {
        le16(*self)
    }

    fn write_to(&self, buf: &mut Vec<u8>) {
        let v = *self;
        buf.push((v & 0xff) as u8);
        buf.push((v >> 8) as u8);
        assert(buf@ =~= old(buf)@ + le16(v));
    }
}

impl Writable for u32 {
    open spec fn spec_bytes(&self) -> Seq<u8> {
        le32(*self)
    }

    fn write_to(&self, buf: &mut Vec<u8>) {
        let v = *self;
        buf.push((v & 0xff) as u8);
        buf.push(((v >> 8) & 0xff) as u8);
        buf.push(((v >> 16) & 0xff) as u8);
        buf.push((v >> 24) as u8);
        assert(buf@ =~= old(buf)@ + le32(v));
    }
}

/// Eight bytes: the bits of a 64-bit float.
impl Writable for u64 {
    open spec fn spec_bytes(&self) -> Seq<u8> {
        le64(*self)
    }

    fn write_to(&self, buf: &mut Vec<u8>) {
        let v = *self;
        buf.push((v & 0xff) as u8);
        buf.push(((v >> 8) & 0xff) as u8);
        buf.push(((v >> 16) & 0xff) as u8);
        buf.push(((v >> 24) & 0xff) as u8);
        buf.push(((v >> 32) & 0xff) as u8);
        buf.push(((v >> 40) & 0xff) as u8);
        buf.push(((v >> 48) & 0xff) as u8);
        buf.push((v >> 56) as u8);
        assert(buf@ =~= old(buf)@ + le64(v));
    }
}

impl Writable for Vec<u8> {
    open spec fn spec_bytes(&self) -> Seq<u8> {
        self@
    }

    fn write_to(&self, buf: &mut Vec<u8>) {
        push_bytes(buf, self.as_slice());
    }
}

impl Writable for Opcode {
    open spec fn spec_bytes(&self) -> Seq<u8> {
        seq![self.spec_byte()]
    }

    fn write_to(&self, buf: &mut Vec<u8>) {
        buf.push(self.to_byte());
    }
}

impl Writable for AtomTag {
    open spec fn spec_bytes(&self) -> Seq<u8> {
        seq![self.spec_byte()]
    }

    fn write_to(&self, buf: &mut Vec<u8>) {
        buf.push(self.to_byte());
    }
}

/// Bytes of a string as it is written: its UTF-8 length cut to 16 bits,
/// then its UTF-8 bytes.
pub open spec fn str_bytes(s: Seq<char>) -> Seq<u8> {
    le16(((encode_utf8(s).len() as usize) % 65536) as u16) + encode_utf8(s)
}

impl<'s> Writable for &'s str {
    open spec fn spec_bytes(&self) -> Seq<u8> {
        str_bytes((**self)@)
    }

    fn write_to(&self, buf: &mut Vec<u8>) {
        let s: &str = *self;
        let len = (s.len() % 65536) as u16;
        len.write_to(buf);
        push_bytes(buf, s.as_bytes());
        assert(buf@ =~= old(buf)@ + str_bytes(s@));
    }
}

/// Accumulates bytes.
pub struct Writer {
    buf: Vec<u8>,
}

impl View for Writer {
    type V = Seq<u8>;

    closed spec fn view(&self) -> Seq<u8> {
        self.buf@
    }
}

impl Writer {
    pub fn new() -> (w: Writer)
        ensures
            w@ == Seq::<u8>::empty(),
    {
        Self { buf: Vec::new() }
    }

    pub fn write<T: Writable>(&mut self, value: T) -> (r: &mut Self)
        ensures
            *final(self) == *final(r),
            (*r)@ == old(self)@ + value.spec_bytes(),
    {
        value.write_to(&mut self.buf);
        self
    }

    pub fn write_bytes(&mut self, bytes: &[u8]) -> (r: &mut Self)
        ensures
            *final(self) == *final(r),
            (*r)@ == old(self)@ + bytes@,
    {
        push_bytes(&mut self.buf, bytes);
        self
    }

    pub fn len(&self) -> (n: usize)
        ensures
            n == self@.len(),
    {
        self.buf.len()
    }

    pub fn as_bytes(&self) -> (b: &[u8])
        ensures
            b@ == self@,
    {
        self.buf.as_slice()
    }

    pub fn finish(self) -> (b: Vec<u8>)
        ensures
            b@ == self@,
    {
        self.buf
    }
}

} // verus!

verus! {

proof fn lemma_le16_bits(v: u16)
    ensures
        ((v & 0xff) as u8 as u16) | ((((v >> 8) as u8) as u16) << 8) == v,
{
    assert(((v & 0xff) as u8 as u16) | ((((v >> 8) as u8) as u16) << 8) == v) by (bit_vector);
}

proof fn lemma_le32_bits(v: u32)
    ensures
        ((v & 0xff) as u8 as u32) | ((((v >> 8) & 0xff) as u8 as u32) << 8) | ((((v >> 16)
            & 0xff) as u8 as u32) << 16) | ((((v >> 24) as u8) as u32) << 24) == v,
{
    assert(((v & 0xff) as u8 as u32) | ((((v >> 8) & 0xff) as u8 as u32) << 8) | ((((v >> 16)
        & 0xff) as u8 as u32) << 16) | ((((v >> 24) as u8) as u32) << 24) == v) by (bit_vector);
}

proof fn lemma_le64_bits(v: u64)
    ensures
        ((v & 0xff) as u8 as u64) | ((((v >> 8) & 0xff) as u8 as u64) << 8) | ((((v >> 16)
            & 0xff) as u8 as u64) << 16) | ((((v >> 24) & 0xff) as u8 as u64) << 24) | ((((v
            >> 32) & 0xff) as u8 as u64) << 32) | ((((v >> 40) & 0xff) as u8 as u64) << 40) | ((((
        v >> 48) & 0xff) as u8 as u64) << 48) | ((((v >> 56) as u8) as u64) << 56) == v,
{
    assert(((v & 0xff) as u8 as u64) | ((((v >> 8) & 0xff) as u8 as u64) << 8) | ((((v >> 16)
        & 0xff) as u8 as u64) << 16) | ((((v >> 24) & 0xff) as u8 as u64) << 24) | ((((v >> 32)
        & 0xff) as u8 as u64) << 32) | ((((v >> 40) & 0xff) as u8 as u64) << 40) | ((((v >> 48)
        & 0xff) as u8 as u64) << 48) | ((((v >> 56) as u8) as u64) << 56) == v) by (bit_vector);
}

/// Reading a 16-bit value from bytes that begin with its written form gives
/// the value back.
pub proof fn law_u16_read_after_write(v: u16, rest: Seq<u8>)
    ensures
        u16::spec_from_bytes((v.spec_bytes() + rest).take(u16::spec_size() as int)) == v,
{
    lemma_le16_bits(v);
    let b = v.spec_bytes() + rest;
    assert(b[0] == (v & 0xff) as u8 && b[1] == (v >> 8) as u8);
}

/// Reading a 32-bit value from bytes that begin with its written form gives
/// the value back.
pub proof fn law_u32_read_after_write(v: u32, rest: Seq<u8>)
    ensures
        u32::spec_from_bytes((v.spec_bytes() + rest).take(u32::spec_size() as int)) == v,
{
    lemma_le32_bits(v);
    let b = v.spec_bytes() + rest;
    assert(b[0] == (v & 0xff) as u8 && b[1] == ((v >> 8) & 0xff) as u8 && b[2] == ((v >> 16)
        & 0xff) as u8 && b[3] == (v >> 24) as u8);
}

/// Reading a 64-bit value from bytes that begin with its written form gives
/// the value back.
pub proof fn law_u64_read_after_write(v: u64, rest: Seq<u8>)
    ensures
        u64::spec_from_bytes((v.spec_bytes() + rest).take(u64::spec_size() as int)) == v,
{
    lemma_le64_bits(v);
    let b = (v.spec_bytes() + rest).take(8);
    assert(b[0] == (v & 0xff) as u8);
    assert(b[1] == ((v >> 8) & 0xff) as u8);
    assert(b[2] == ((v >> 16) & 0xff) as u8);
    assert(b[3] == ((v >> 24) & 0xff) as u8);
    assert(b[4] == ((v >> 32) & 0xff) as u8);
    assert(b[5] == ((v >> 40) & 0xff) as u8);
    assert(b[6] == ((v >> 48) & 0xff) as u8);
    assert(b[7] == (v >> 56) as u8);
}

/// Reading a string from bytes that begin with its written form gives the
/// string back and leaves exactly the bytes after it, when its UTF-8 form
/// is shorter than 65536 bytes.
pub proof fn law_str_read_after_write(s: Seq<char>, rest: Seq<u8>)
    requires
        encode_utf8(s).len() < 65536,
    ensures
        spec_fetch_str(str_bytes(s) + rest) == Ok::<Seq<char>, ErrorModel>(s),
        spec_fetch_str_rest(str_bytes(s) + rest) == rest,
{
    let e = encode_utf8(s);
    let n = e.len();
    let v = ((n as usize) % 65536) as u16;
    assert(v == n);
    lemma_le16_bits(v);
    let d = str_bytes(s) + rest;
    assert(d[0] == (v & 0xff) as u8 && d[1] == (v >> 8) as u8);
    assert(d.subrange(2, 2 + n as int) =~= e);
    assert(d.skip(2 + n as int) =~= rest);
    encode_utf8_valid_utf8(s);
    encode_utf8_decode_utf8(s);
}

/// Writing only appends, in call order: a writer that started empty and
/// was then given values whose bytes are `bytes[0]`, ..., `bytes[k - 1]`, one
/// after another, holds their bytes one after another.
pub proof fn law_writes_concatenate(writers: Seq<Writer>, bytes: Seq<Seq<u8>>)
    requires
        writers.len() == bytes.len() + 1,
        writers[0]@ == Seq::<u8>::empty(),
        forall|i: int| 0 < i < writers.len() ==> #[trigger] writers[i]@ == writers[i - 1]@ + bytes[i - 1],
    ensures
        writers.last()@ == bytes.flatten(),
    decreases bytes.len(),
{
    if bytes.len() == 0 {
        assert(bytes.flatten() =~= Seq::<u8>::empty());
    } else {
        let w = writers.drop_last();
        let b = bytes.drop_last();
        assert forall|i: int| 0 < i < w.len() implies #[trigger] w[i]@ == w[i - 1]@ + b[i - 1] by {
            assert(w[i] == writers[i]);
        }
        law_writes_concatenate(w, b);
        assert(bytes =~= b.push(bytes.last()));
        b.lemma_flatten_push(bytes.last());
        assert(writers[writers.len() - 1]@ == writers[writers.len() - 2]@ + bytes[bytes.len() - 1]);
    }
}

} // verus!
