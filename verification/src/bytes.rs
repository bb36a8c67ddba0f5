//! Big-endian wire encoding shared by every message of the protocol:
//! fixed-width integers, length-prefixed UTF-8 strings, length framing,
//! and a byte cursor from which the decoders read.

use vstd::prelude::*;
use vstd::utf8::*;
use vstd::string::*;

verus! {

broadcast use {vstd::utf8::encode_utf8_valid_utf8, vstd::utf8::encode_utf8_decode_utf8};

/// Timestamps travel as seconds since the Unix epoch.
pub type TimeStamp = i64;

/// Identifier of a company account.
pub type AccountId = u64;

/// Identifier of a fuel card.
pub type CardId = u64;

/// Generic identifier carried by a response.
pub type GenId = u64;

/// Number of a pump inside a station.
pub type PumpId = u8;

/// Status code answered when an operation succeeds.
pub const SUCCESS: u8 = 0;

/// Status code answered when an operation fails.
pub const FAILURE: u8 = 1;

// ----------------------------------------------------------------------------
// Fixed-width integers
// ----------------------------------------------------------------------------

/// The eight big-endian bytes of `x`.
pub open spec fn be_u64(x: u64) -> Seq<u8> {
    seq![
        (x >> 56u64) as u8,
        (x >> 48u64) as u8,
        (x >> 40u64) as u8,
        (x >> 32u64) as u8,
        (x >> 24u64) as u8,
        (x >> 16u64) as u8,
        (x >> 8u64) as u8,
        x as u8,
    ]
}

/// The value of eight big-endian bytes.
pub open spec fn u64_of_be(b: Seq<u8>) -> u64 {
    ((b[0] as u64) << 56u64) | ((b[1] as u64) << 48u64) | ((b[2] as u64) << 40u64) | ((
    b[3] as u64) << 32u64) | ((b[4] as u64) << 24u64) | ((b[5] as u64) << 16u64) | ((
    b[6] as u64) << 8u64) | (b[7] as u64)
}

/// The two big-endian bytes of `x`.
pub open spec fn be_u16(x: u16) -> Seq<u8> {
    seq![(x >> 8u16) as u8, x as u8]
}

/// The value of two big-endian bytes.
pub open spec fn u16_of_be(b: Seq<u8>) -> u16 {
    ((b[0] as u16) << 8u16) | (b[1] as u16)
}

/// The eight big-endian bytes of a signed 64-bit value (two's complement).
pub open spec fn be_i64(x: i64) -> Seq<u8> {
    be_u64(x as u64)
}

/// Decoding the encoding of a `u64` gives the value back.
pub proof fn lemma_u64_be_roundtrip(x: u64)
    ensures
        u64_of_be(be_u64(x)) == x,
        be_u64(x).len() == 8,
{
    assert(((((x >> 56u64) as u8) as u64) << 56u64) | ((((x >> 48u64) as u8) as u64) << 48u64)
        | ((((x >> 40u64) as u8) as u64) << 40u64) | ((((x >> 32u64) as u8) as u64) << 32u64) | ((
    ((x >> 24u64) as u8) as u64) << 24u64) | ((((x >> 16u64) as u8) as u64) << 16u64) | ((((x
        >> 8u64) as u8) as u64) << 8u64) | ((x as u8) as u64) == x) by (bit_vector);
}

/// Encoding the value of eight bytes gives the same bytes back.
pub proof fn lemma_be_u64_of_bytes(b: Seq<u8>)
    requires
        b.len() == 8,
    ensures
        be_u64(u64_of_be(b)) =~= b,
{
    let b0 = b[0];
    let b1 = b[1];
    let b2 = b[2];
    let b3 = b[3];
    let b4 = b[4];
    let b5 = b[5];
    let b6 = b[6];
    let b7 = b[7];
    let x = u64_of_be(b);
    assert(x == ((b0 as u64) << 56u64) | ((b1 as u64) << 48u64) | ((b2 as u64) << 40u64) | ((
    b3 as u64) << 32u64) | ((b4 as u64) << 24u64) | ((b5 as u64) << 16u64) | ((b6 as u64)
        << 8u64) | (b7 as u64));
    assert({
        &&& (x >> 56u64) as u8 == b0
        &&& (x >> 48u64) as u8 == b1
        &&& (x >> 40u64) as u8 == b2
        &&& (x >> 32u64) as u8 == b3
        &&& (x >> 24u64) as u8 == b4
        &&& (x >> 16u64) as u8 == b5
        &&& (x >> 8u64) as u8 == b6
        &&& x as u8 == b7
    }) by (bit_vector)
        requires
            x == ((b0 as u64) << 56u64) | ((b1 as u64) << 48u64) | ((b2 as u64) << 40u64) | ((
            b3 as u64) << 32u64) | ((b4 as u64) << 24u64) | ((b5 as u64) << 16u64) | ((
            b6 as u64) << 8u64) | (b7 as u64),
    ;
}

/// Decoding the encoding of a `u16` gives the value back.
pub proof fn lemma_u16_be_roundtrip(x: u16)
    ensures
        u16_of_be(be_u16(x)) == x,
        be_u16(x).len() == 2,
{
    assert(((((x >> 8u16) as u8) as u16) << 8u16) | ((x as u8) as u16) == x) by (bit_vector);
}

/// A signed value survives the trip through its unsigned bit pattern.
pub proof fn lemma_i64_bits_roundtrip(x: i64)
    ensures
        (x as u64) as i64 == x,
{
    assert((x as u64) as i64 == x) by (bit_vector);
}

/// Appends the big-endian bytes of `x`.
pub fn push_u64_be(buf: &mut Vec<u8>, x: u64)
    ensures
        final(buf)@ == old(buf)@ + be_u64(x),
{
    buf.push((x >> 56u64) as u8);
    buf.push((x >> 48u64) as u8);
    buf.push((x >> 40u64) as u8);
    buf.push((x >> 32u64) as u8);
    buf.push((x >> 24u64) as u8);
    buf.push((x >> 16u64) as u8);
    buf.push((x >> 8u64) as u8);
    buf.push(x as u8);
    assert(buf@ =~= old(buf)@ + be_u64(x));
}

/// Appends the big-endian bytes of a signed value.
pub fn push_i64_be(buf: &mut Vec<u8>, x: i64)
    ensures
        final(buf)@ == old(buf)@ + be_i64(x),
{
    push_u64_be(buf, x as u64);
}

/// Appends the bytes of `other`.
pub fn append_bytes(buf: &mut Vec<u8>, other: &[u8])
    ensures
        final(buf)@ == old(buf)@ + other@,
{
    let ghost old_buf = buf@;
    let n = other.len();
    let mut i: usize = 0;
    while i < n
        invariant
            n == other@.len(),
            i <= n,
            buf@ == old_buf + other@.subrange(0, i as int),
        decreases n - i,
    {
        buf.push(other[i]);
        i = i + 1;
        assert(buf@ =~= old_buf + other@.subrange(0, i as int));
    }
    assert(other@.subrange(0, n as int) =~= other@);
}

// ----------------------------------------------------------------------------
// Strings
// ----------------------------------------------------------------------------

/// The UTF-8 length of `s` fits in the 64-bit length field (true of every
/// string held in memory).
pub open spec fn encode_utf8_fits(s: Seq<char>) -> bool {
    encode_utf8(s).len() <= u64::MAX
}

/// The wire form of a string: its UTF-8 byte length as a big-endian `u64`,
/// then its UTF-8 bytes.
pub open spec fn str_field(s: Seq<char>) -> Seq<u8> {
    be_u64(encode_utf8(s).len() as u64) + encode_utf8(s)
}

/// Appends the wire form of `text`.
pub fn push_str_field(buf: &mut Vec<u8>, text: &str)
    ensures
        final(buf)@ == old(buf)@ + str_field(text@),
{
    let bytes = text.as_bytes();
    push_u64_be(buf, bytes.len() as u64);
    append_bytes(buf, bytes);
    assert(buf@ =~= old(buf)@ + str_field(text@));
}

/// Extension of a byte buffer with the wire form of a string.
pub trait ByteVec {
    fn extend_from_string(&mut self, name: &str);
}

impl ByteVec for Vec<u8> {
    /// Appends the UTF-8 byte length of `name` (big-endian `u64`), then its bytes.
    fn extend_from_string(&mut self, name: &str)
        ensures
            final(self)@ == old(self)@ + str_field(name@),
    {
        push_str_field(self, name);
    }
}

// ----------------------------------------------------------------------------
// Framing
// ----------------------------------------------------------------------------

/// Prefixes a payload with its length as a big-endian `u64`.
pub fn frame_payload(bytes: Vec<u8>) -> (framed: Vec<u8>)
    ensures
        framed@ == be_u64(bytes@.len() as u64) + bytes@,
{
    let mut bytes = bytes;
    let len = bytes.len() as u64;
    let mut framed: Vec<u8> = Vec::new();
    push_u64_be(&mut framed, len);
    framed.append(&mut bytes);
    framed
}


// ----------------------------------------------------------------------------
// Decoding model
// ----------------------------------------------------------------------------

/// Outcome of decoding a value from the front of a byte sequence.
pub enum Decoded<T> {
    /// The value, and the bytes that follow it.
    Value(T, Seq<u8>),
    /// The input ends before the value does.
    Short,
    /// The input cannot be handled: text that is not UTF-8, or a length that
    /// points past the end of the input.
    Invalid,
}

/// Chains two decoding steps.
pub open spec fn then<A, B>(d: Decoded<A>, f: spec_fn(A, Seq<u8>) -> Decoded<B>) -> Decoded<B> {
    match d {
        Decoded::Value(a, rest) => f(a, rest),
        Decoded::Short => Decoded::Short,
        Decoded::Invalid => Decoded::Invalid,
    }
}

/// One byte.
pub open spec fn dec_u8(b: Seq<u8>) -> Decoded<u8> {
    if b.len() >= 1 {
        Decoded::Value(b[0], b.skip(1))
    } else {
        Decoded::Short
    }
}

/// A big-endian `u16`.
pub open spec fn dec_u16(b: Seq<u8>) -> Decoded<u16> {
    if b.len() >= 2 {
        Decoded::Value(u16_of_be(b.take(2)), b.skip(2))
    } else {
        Decoded::Short
    }
}

/// A big-endian `u64`.
pub open spec fn dec_u64(b: Seq<u8>) -> Decoded<u64> {
    if b.len() >= 8 {
        Decoded::Value(u64_of_be(b.take(8)), b.skip(8))
    } else {
        Decoded::Short
    }
}

/// A big-endian `i64`.
pub open spec fn dec_i64(b: Seq<u8>) -> Decoded<i64> {
    if b.len() >= 8 {
        Decoded::Value(u64_of_be(b.take(8)) as i64, b.skip(8))
    } else {
        Decoded::Short
    }
}

/// Exactly `n` bytes of UTF-8 text.
pub open spec fn dec_text(b: Seq<u8>, n: int) -> Decoded<Seq<char>> {
    if b.len() >= n {
        if valid_utf8(b.take(n)) {
            Decoded::Value(decode_utf8(b.take(n)), b.skip(n))
        } else {
            Decoded::Invalid
        }
    } else {
        Decoded::Short
    }
}

/// A length-prefixed string, as written by `push_str_field`.
pub open spec fn dec_str(b: Seq<u8>) -> Decoded<Seq<char>> {
    then(dec_u64(b), |n: u64, rest: Seq<u8>| dec_text(rest, n as int))
}

/// Reading back the wire form of a string gives the string and what follows.
pub proof fn lemma_dec_str_field(s: Seq<char>, rest: Seq<u8>)
    requires
        encode_utf8_fits(s),
    ensures
        dec_str(str_field(s) + rest) == Decoded::Value(s, rest),
{
    let e = encode_utf8(s);
    let n = e.len() as u64;
    let all = str_field(s) + rest;
    lemma_u64_be_roundtrip(n);
    assert(all.take(8) =~= be_u64(n));
    assert(all.skip(8) =~= e + rest);
    assert((e + rest).take(e.len() as int) =~= e);
    assert((e + rest).skip(e.len() as int) =~= rest);
}

/// A string field cut short anywhere before its end reads as short.
pub proof fn lemma_dec_str_field_cut(s: Seq<char>, k: int)
    requires
        encode_utf8_fits(s),
        0 <= k < str_field(s).len(),
    ensures
        dec_str(str_field(s).take(k)) is Short,
{
    let e = encode_utf8(s);
    let n = e.len() as u64;
    let p = str_field(s).take(k);
    lemma_u64_be_roundtrip(n);
    if k >= 8 {
        assert(p.take(8) =~= be_u64(n));
        assert(p.skip(8).len() == k - 8);
    }
}

/// Reading back a big-endian `u64` gives the value and what follows.
pub proof fn lemma_dec_u64(x: u64, rest: Seq<u8>)
    ensures
        dec_u64(be_u64(x) + rest) == Decoded::Value(x, rest),
{
    lemma_u64_be_roundtrip(x);
    assert((be_u64(x) + rest).take(8) =~= be_u64(x));
    assert((be_u64(x) + rest).skip(8) =~= rest);
}

/// Reading back a big-endian `i64` gives the value and what follows.
pub proof fn lemma_dec_i64(x: i64, rest: Seq<u8>)
    ensures
        dec_i64(be_i64(x) + rest) == Decoded::Value(x, rest),
{
    lemma_u64_be_roundtrip(x as u64);
    lemma_i64_bits_roundtrip(x);
    assert((be_i64(x) + rest).take(8) =~= be_i64(x));
    assert((be_i64(x) + rest).skip(8) =~= rest);
}

/// Reading back one byte gives the byte and what follows.
pub proof fn lemma_dec_u8(x: u8, rest: Seq<u8>)
    ensures
        dec_u8(seq![x] + rest) == Decoded::Value(x, rest),
{
    assert((seq![x] + rest).skip(1) =~= rest);
}

// ----------------------------------------------------------------------------
// Cursor
// ----------------------------------------------------------------------------

/// Read position over an owned byte buffer.
pub struct ByteCursor {
    data: Vec<u8>,
    pos: usize,
}

impl ByteCursor {
    #[verifier::type_invariant]
    spec fn inv(self) -> bool {
        self.pos <= self.data@.len()
    }

    /// All bytes of the buffer.
    pub closed spec fn bytes(self) -> Seq<u8> {
        self.data@
    }

    /// Number of bytes already read.
    pub closed spec fn offset(self) -> int {
        self.pos as int
    }

    /// The bytes not read yet.
    pub closed spec fn rest(self) -> Seq<u8> {
        self.data@.subrange(self.pos as int, self.data@.len() as int)
    }

    /// A cursor at the start of `data`.
    pub fn new(data: Vec<u8>) -> (c: Self)
        ensures
            c.bytes() == data@,
            c.offset() == 0,
            c.rest() == data@,
    {
        let c = ByteCursor { data, pos: 0 };
        assert(c.data@.subrange(0, c.data@.len() as int) =~= c.data@);
        c
    }

    /// Number of bytes already read.
    pub fn position(&self) -> (p: usize)
        ensures
            p == self.offset(),
            p + self.rest().len() == self.bytes().len(),
    {
        proof {
            use_type_invariant(self);
        }
        self.pos
    }

    /// Number of bytes not read yet.
    pub fn remaining(&self) -> (n: usize)
        ensures
            n == self.rest().len(),
    {
        proof {
            use_type_invariant(self);
        }
        self.data.len() - self.pos
    }

    /// Reads the next byte; the cursor must not be at the end.
    fn next_byte(&mut self) -> (b: u8)
        requires
            old(self).rest().len() >= 1,
        ensures
            b == old(self).rest()[0],
            final(self).rest() == old(self).rest().skip(1),
            final(self).bytes() == old(self).bytes(),
            final(self).offset() == old(self).offset() + 1,
    {
        proof {
            use_type_invariant(&*self);
            assert(self.rest().len() == self.data@.len() - self.pos);
        }
        let p = self.pos;
        let n = self.data.len();
        assert(p < n);
        let b = self.data[p];
        self.pos = p + 1;
        assert(self.rest() =~= old(self).rest().skip(1));
        b
    }

    /// Takes the next `n` bytes; they must be there.
    fn take_bytes(&mut self, n: usize) -> (out: Vec<u8>)
        requires
            old(self).rest().len() >= n,
        ensures
            out@ == old(self).rest().take(n as int),
            final(self).rest() == old(self).rest().skip(n as int),
            final(self).bytes() == old(self).bytes(),
            final(self).offset() == old(self).offset() + n,
    {
        let ghost start = self.rest();
        let mut out: Vec<u8> = Vec::new();
        let mut i: usize = 0;
        while i < n
            invariant
                i <= n,
                start.len() >= n,
                self.bytes() == old(self).bytes(),
                self.offset() == old(self).offset() + i,
                self.rest() == start.skip(i as int),
                out@ == start.take(i as int),
            decreases n - i,
        {
            let b = self.next_byte();
            out.push(b);
            i = i + 1;
            assert(out@ =~= start.take(i as int));
            assert(self.rest() =~= start.skip(i as int));
        }
        out
    }
}

/// Reads one byte.
pub fn read_u8(reader: &mut ByteCursor) -> (r: Result<u8, &'static str>)
    ensures
        dec_u8(old(reader).rest()) matches Decoded::Value(v, rest) ==> r == Ok::<u8, &str>(v)
            && final(reader).rest() == rest,
        dec_u8(old(reader).rest()) is Short ==> (r matches Err(e) && e@ == "error when reading u8"@
            && final(reader).rest() == old(reader).rest()),
        final(reader).bytes() == old(reader).bytes(),
{
    if reader.remaining() < 1 {
        return Err("error when reading u8");
    }
    let b = reader.next_byte();
    Ok(b)
}

/// Reads a big-endian `u16`.
pub fn read_u16(reader: &mut ByteCursor) -> (r: Result<u16, &'static str>)
    ensures
        dec_u16(old(reader).rest()) matches Decoded::Value(v, rest) ==> r == Ok::<u16, &str>(v)
            && final(reader).rest() == rest,
        dec_u16(old(reader).rest()) is Short ==> (r matches Err(e) && e@ == "error when reading u8"@
            && final(reader).rest() == old(reader).rest()),
        final(reader).bytes() == old(reader).bytes(),
{
    if reader.remaining() < 2 {
        return Err("error when reading u8");
    }
    let b = reader.take_bytes(2);
    let v = ((b[0] as u16) << 8u16) | (b[1] as u16);
    Ok(v)
}

/// Reads the next eight bytes as a `u64`; they must be there.
fn take_u64(reader: &mut ByteCursor) -> (v: u64)
    requires
        old(reader).rest().len() >= 8,
    ensures
        v == u64_of_be(old(reader).rest().take(8)),
        final(reader).rest() == old(reader).rest().skip(8),
        final(reader).bytes() == old(reader).bytes(),
{
    let b = reader.take_bytes(8);
    ((b[0] as u64) << 56u64) | ((b[1] as u64) << 48u64) | ((b[2] as u64) << 40u64) | ((
    b[3] as u64) << 32u64) | ((b[4] as u64) << 24u64) | ((b[5] as u64) << 16u64) | ((
    b[6] as u64) << 8u64) | (b[7] as u64)
}

/// Reads a big-endian `u64`.
pub fn read_u64(reader: &mut ByteCursor) -> (r: Result<u64, &'static str>)
    ensures
        dec_u64(old(reader).rest()) matches Decoded::Value(v, rest) ==> r == Ok::<u64, &str>(v)
            && final(reader).rest() == rest,
        dec_u64(old(reader).rest()) is Short ==> (r matches Err(e) && e@ == "error when reading u8"@
            && final(reader).rest() == old(reader).rest()),
        final(reader).bytes() == old(reader).bytes(),
{
    if reader.remaining() < 8 {
        return Err("error when reading u8");
    }
    Ok(take_u64(reader))
}

/// Reads a big-endian `i64` timestamp.
pub fn read_timestamp(reader: &mut ByteCursor) -> (r: Result<TimeStamp, &'static str>)
    ensures
        dec_i64(old(reader).rest()) matches Decoded::Value(v, rest) ==> r == Ok::<i64, &str>(v)
            && final(reader).rest() == rest,
        dec_i64(old(reader).rest()) is Short ==> (r matches Err(e) && e@ == "error when reading u8"@
            && final(reader).rest() == old(reader).rest()),
        final(reader).bytes() == old(reader).bytes(),
{
    if reader.remaining() < 8 {
        return Err("error when reading u8");
    }
    let v = take_u64(reader);
    Ok(v as i64)
}

/// `String::from_utf8` (std): decodes the bytes when they are valid UTF-8,
/// and fails otherwise. The contract claims exactly that, over vstd's UTF-8 model.
#[verifier::external_body]
pub(crate) fn string_from_utf8(bytes: Vec<u8>) -> (r: Option<String>)
    ensures
        r is Some <==> valid_utf8(bytes@),
        r matches Some(s) ==> s@ == decode_utf8(bytes@),
{
    String::from_utf8(bytes).ok()
}

/// Reads `len` bytes of text: `Err` when fewer bytes remain, `Ok(None)` when
/// they are not UTF-8, and the text otherwise.
pub fn read_text(reader: &mut ByteCursor, len: usize) -> (r: Result<Option<String>, &'static str>)
    ensures
        dec_text(old(reader).rest(), len as int) matches Decoded::Value(s, rest) ==> (r matches Ok(
            Some(t),
        ) && t@ == s && final(reader).rest() == rest),
        dec_text(old(reader).rest(), len as int) is Invalid ==> (r matches Ok(None)),
        dec_text(old(reader).rest(), len as int) is Short ==> (r matches Err(e) && e@
            == "error when reading a string"@ && final(reader).rest() == old(reader).rest()),
        final(reader).bytes() == old(reader).bytes(),
{
    if reader.remaining() < len {
        return Err("error when reading a string");
    }
    let buf = reader.take_bytes(len);
    Ok(string_from_utf8(buf))
}

/// Reads a length-prefixed string: `Err` when the input ends early,
/// `Ok(None)` when the text is not UTF-8.
pub fn read_str_field(reader: &mut ByteCursor) -> (r: Result<Option<String>, &'static str>)
    ensures
        dec_str(old(reader).rest()) matches Decoded::Value(s, rest) ==> (r matches Ok(Some(t))
            && t@ == s && final(reader).rest() == rest),
        dec_str(old(reader).rest()) is Invalid <==> (r matches Ok(None)),
        dec_str(old(reader).rest()) is Short ==> r is Err,
        final(reader).bytes() == old(reader).bytes(),
{
    let n = match read_u64(reader) {
        Ok(n) => n,
        Err(e) => return Err(e),
    };
    if n > reader.remaining() as u64 {
        return Err("error when reading a string");
    }
    read_text(reader, n as usize)
}

/// The wire form of a list of strings, one after the other (the count is
/// written separately).
pub open spec fn str_fields(l: Seq<Seq<char>>) -> Seq<u8>
    decreases l.len(),
{
    if l.len() == 0 {
        Seq::empty()
    } else {
        str_field(l[0]) + str_fields(l.drop_first())
    }
}

/// Every string of the list fits its length field.
pub open spec fn all_fit(l: Seq<Seq<char>>) -> bool {
    forall|i: int| 0 <= i < l.len() ==> #[trigger] encode_utf8_fits(l[i])
}

/// Puts `prefix` in front of a decoded list.
pub open spec fn prepend(prefix: Seq<Seq<char>>, d: Decoded<Seq<Seq<char>>>) -> Decoded<
    Seq<Seq<char>>,
> {
    match d {
        Decoded::Value(l, rest) => Decoded::Value(prefix + l, rest),
        Decoded::Short => Decoded::Short,
        Decoded::Invalid => Decoded::Invalid,
    }
}

/// `n` length-prefixed strings, one after the other.
pub open spec fn dec_str_list(b: Seq<u8>, n: nat) -> Decoded<Seq<Seq<char>>>
    decreases n,
{
    if n == 0 {
        Decoded::Value(Seq::empty(), b)
    } else {
        match dec_str(b) {
            Decoded::Value(s, rest) => prepend(seq![s], dec_str_list(rest, (n - 1) as nat)),
            Decoded::Short => Decoded::Short,
            Decoded::Invalid => Decoded::Invalid,
        }
    }
}

proof fn lemma_prepend_prepend(a: Seq<Seq<char>>, b: Seq<Seq<char>>, d: Decoded<Seq<Seq<char>>>)
    ensures
        prepend(a, prepend(b, d)) == prepend(a + b, d),
{
    match d {
        Decoded::Value(l, rest) => {
            assert(a + (b + l) =~= (a + b) + l);
        },
        _ => {},
    }
}

/// Appends the wire form of each string of the list, in order.
pub fn push_str_fields(buf: &mut Vec<u8>, l: &Vec<String>)
    ensures
        final(buf)@ == old(buf)@ + str_fields(l.deep_view()),
        all_fit(l.deep_view()),
{
    let ghost start = buf@;
    let n = l.len();
    let mut i: usize = 0;
    assert(l.deep_view().skip(0) =~= l.deep_view());
    while i < n
        invariant
            n == l.len(),
            i <= n,
            buf@ + str_fields(l.deep_view().skip(i as int)) == start + str_fields(l.deep_view()),
            forall|j: int| 0 <= j < i ==> #[trigger] encode_utf8_fits(l.deep_view()[j]),
        decreases n - i,
    {
        let ghost before = buf@;
        let ghost tail = l.deep_view().skip(i as int);
        assert(tail.drop_first() =~= l.deep_view().skip(i + 1));
        assert(tail[0] == l[i as int]@);
        let bytes = l[i].as_str().as_bytes();
        let blen = bytes.len();
        push_str_field(buf, l[i].as_str());
        assert(encode_utf8(l[i as int]@).len() == blen);
        assert(encode_utf8_fits(l.deep_view()[i as int]));
        assert(str_fields(tail) == str_field(tail[0]) + str_fields(tail.drop_first()));
        assert(buf@ + str_fields(l.deep_view().skip(i + 1)) =~= before + str_fields(tail));
        i = i + 1;
    }
    assert(l.deep_view().skip(n as int) =~= Seq::<Seq<char>>::empty());
    assert(buf@ + Seq::<u8>::empty() =~= buf@);
}

/// Reading back the wire form of a list of strings gives the list and what follows.
pub proof fn lemma_dec_str_list(l: Seq<Seq<char>>, rest: Seq<u8>)
    requires
        all_fit(l),
    ensures
        dec_str_list(str_fields(l) + rest, l.len()) == Decoded::Value(l, rest),
    decreases l.len(),
{
    if l.len() > 0 {
        let tail = l.drop_first();
        assert(all_fit(tail)) by {
            assert forall|i: int| 0 <= i < tail.len() implies #[trigger] encode_utf8_fits(tail[i]) by {
                assert(tail[i] == l[i + 1]);
            }
        }
        assert(encode_utf8_fits(l[0]));
        lemma_dec_str_list(tail, rest);
        let all = str_fields(l) + rest;
        assert(all =~= str_field(l[0]) + (str_fields(tail) + rest));
        lemma_dec_str_field(l[0], str_fields(tail) + rest);
        assert(dec_str(all) == Decoded::Value(l[0], str_fields(tail) + rest));
        assert(tail.len() == (l.len() - 1) as nat);
        assert(dec_str_list(all, l.len()) == prepend(seq![l[0]], dec_str_list(str_fields(tail) + rest, tail.len())));
        assert(seq![l[0]] + tail =~= l);
    } else {
        assert(l =~= Seq::<Seq<char>>::empty());
        assert(str_fields(l) + rest =~= rest);
    }
}

/// Reads `count` length-prefixed strings: `Err` when the input ends early,
/// `Ok(None)` when a text is not UTF-8.
pub fn read_str_list(reader: &mut ByteCursor, count: u64) -> (r: Result<Option<Vec<String>>, &'static str>)
    ensures
        dec_str_list(old(reader).rest(), count as nat) matches Decoded::Value(l, rest) ==> (r matches Ok(Some(v))
            && v.deep_view() == l && final(reader).rest() == rest),
        dec_str_list(old(reader).rest(), count as nat) is Invalid <==> (r matches Ok(None)),
        dec_str_list(old(reader).rest(), count as nat) is Short ==> r is Err,
        final(reader).bytes() == old(reader).bytes(),
{
    let ghost start = reader.rest();
    let mut out: Vec<String> = Vec::new();
    let mut i: u64 = 0;
    while i < count
        invariant
            i <= count,
            start == old(reader).rest(),
            reader.bytes() == old(reader).bytes(),
            dec_str_list(start, count as nat) == prepend(out.deep_view(), dec_str_list(reader.rest(), (count - i) as nat)),
        decreases count - i,
    {
        let ghost before = reader.rest();
        let ghost k = (count - i) as nat;
        assert(dec_str_list(before, k) == match dec_str(before) {
            Decoded::Value(s, rest) => prepend(seq![s], dec_str_list(rest, (k - 1) as nat)),
            Decoded::Short => Decoded::<Seq<Seq<char>>>::Short,
            Decoded::Invalid => Decoded::<Seq<Seq<char>>>::Invalid,
        });
        match read_str_field(reader) {
            Ok(Some(s)) => {
                let ghost sv = s@;
                let ghost prev = out.deep_view();
                proof {
                    lemma_prepend_prepend(out.deep_view(), seq![sv], dec_str_list(reader.rest(), (k - 1) as nat));
                }
                out.push(s);
                assert(out.deep_view() =~= prev + seq![sv]);
            },
            Ok(None) => {
                return Ok(None);
            },
            Err(e) => {
                return Err(e);
            },
        }
        i = i + 1;
    }
    assert(out.deep_view() + Seq::<Seq<char>>::empty() =~= out.deep_view());
    Ok(Some(out))
}

/// Reads `len` bytes of UTF-8 text. When the bytes are there they must be
/// valid UTF-8.
pub fn read_string(reader: &mut ByteCursor, len: usize) -> (r: Result<String, &'static str>)
    requires
        !(dec_text(old(reader).rest(), len as int) is Invalid),
    ensures
        dec_text(old(reader).rest(), len as int) matches Decoded::Value(s, rest) ==> (r matches Ok(
            t,
        ) && t@ == s && final(reader).rest() == rest),
        dec_text(old(reader).rest(), len as int) is Short ==> (r matches Err(e) && e@
            == "error when reading a string"@ && final(reader).rest() == old(reader).rest()),
        final(reader).bytes() == old(reader).bytes(),
{
    match read_text(reader, len) {
        Ok(Some(s)) => Ok(s),
        Ok(None) => {
            proof {
                assert(false);
            }
            Err("error when reading a string")
        },
        Err(e) => Err(e),
    }
}

} // verus!
