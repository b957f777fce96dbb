//! The wire codec: a length-delimited, little-endian binary encoding used
//! for initializer arguments and for structured initializer errors.
//!
//! Integers are written in fixed width, least significant byte first.
//! Strings are written as a 64-bit byte count followed by the UTF-8 bytes.
//! Lists are written as a 64-bit element count followed by the elements.

use vstd::prelude::*;
use vstd::slice::{slice_subrange, slice_to_vec};
use vstd::string::{StrSliceExecFns, StringExecFns};
use vstd::utf8::{decode_utf8, encode_utf8, valid_utf8};

verus! {

broadcast use vstd::utf8::group_utf8_lib;

/// Why a decode failed.
#[derive(Clone, Copy, Debug, PartialEq, Eq, Structural)]
pub enum DecodeError {
    /// The buffer ended before the frame was complete.
    Eof,
    /// A string frame did not hold valid UTF-8.
    InvalidUtf8,
    /// An enum frame carried an unknown variant tag.
    BadTag,
    /// Bytes were left over after the value.
    Trailing,
}

impl DecodeError {
    /// What went wrong, as text for an error report.
    pub open spec fn text(self) -> Seq<char> {
        match self {
            DecodeError::Eof => "unexpected end of buffer"@,
            DecodeError::InvalidUtf8 => "string is not valid UTF-8"@,
            DecodeError::BadTag => "unknown variant tag"@,
            DecodeError::Trailing => "bytes left over after value"@,
        }
    }

    /// Describes the failure for an error report.
    pub fn describe(&self) -> (r: String)
        ensures
            r@ == self.text(),
    {
        match self {
            DecodeError::Eof => String::from_str("unexpected end of buffer"),
            DecodeError::InvalidUtf8 => String::from_str("string is not valid UTF-8"),
            DecodeError::BadTag => String::from_str("unknown variant tag"),
            DecodeError::Trailing => String::from_str("bytes left over after value"),
        }
    }
}

/// The two little-endian bytes of a 16-bit value.
pub open spec fn u16_le(v: u16) -> Seq<u8> {
    seq![(v & 0xff) as u8, ((v >> 8) & 0xff) as u8]
}

/// The four little-endian bytes of a 32-bit value.
pub open spec fn u32_le(v: u32) -> Seq<u8> {
    seq![
        (v & 0xff) as u8,
        ((v >> 8) & 0xff) as u8,
        ((v >> 16) & 0xff) as u8,
        ((v >> 24) & 0xff) as u8,
    ]
}

/// The eight little-endian bytes of a 64-bit value.
pub open spec fn u64_le(v: u64) -> Seq<u8> {
    seq![
        (v & 0xff) as u8,
        ((v >> 8) & 0xff) as u8,
        ((v >> 16) & 0xff) as u8,
        ((v >> 24) & 0xff) as u8,
        ((v >> 32) & 0xff) as u8,
        ((v >> 40) & 0xff) as u8,
        ((v >> 48) & 0xff) as u8,
        ((v >> 56) & 0xff) as u8,
    ]
}

/// Two 16-bit values with the same little-endian bytes are the same value.
pub proof fn lemma_u16_le_injective(a: u16, b: u16)
    requires
        u16_le(a) == u16_le(b),
    ensures
        a == b,
{
    assert(u16_le(a)[0] == u16_le(b)[0] && u16_le(a)[1] == u16_le(b)[1]);
    assert(((a & 0xff) as u8 == (b & 0xff) as u8 && ((a >> 8) & 0xff) as u8 == ((b >> 8)
        & 0xff) as u8) ==> a == b) by (bit_vector);
}

/// Two 32-bit values with the same little-endian bytes are the same value.
pub proof fn lemma_u32_le_injective(a: u32, b: u32)
    requires
        u32_le(a) == u32_le(b),
    ensures
        a == b,
{
    assert(u32_le(a)[0] == u32_le(b)[0] && u32_le(a)[1] == u32_le(b)[1]
        && u32_le(a)[2] == u32_le(b)[2] && u32_le(a)[3] == u32_le(b)[3]);
    assert(((a & 0xff) as u8 == (b & 0xff) as u8 && ((a >> 8) & 0xff) as u8 == ((b >> 8)
        & 0xff) as u8 && ((a >> 16) & 0xff) as u8 == ((b >> 16) & 0xff) as u8 && ((a >> 24)
        & 0xff) as u8 == ((b >> 24) & 0xff) as u8) ==> a == b) by (bit_vector);
}

/// Two 64-bit values with the same little-endian bytes are the same value.
pub proof fn lemma_u64_le_injective(a: u64, b: u64)
    requires
        u64_le(a) == u64_le(b),
    ensures
        a == b,
{
    assert(u64_le(a)[0] == u64_le(b)[0] && u64_le(a)[1] == u64_le(b)[1]
        && u64_le(a)[2] == u64_le(b)[2] && u64_le(a)[3] == u64_le(b)[3]
        && u64_le(a)[4] == u64_le(b)[4] && u64_le(a)[5] == u64_le(b)[5]
        && u64_le(a)[6] == u64_le(b)[6] && u64_le(a)[7] == u64_le(b)[7]);
    assert(((a & 0xff) as u8 == (b & 0xff) as u8 && ((a >> 8) & 0xff) as u8 == ((b >> 8)
        & 0xff) as u8 && ((a >> 16) & 0xff) as u8 == ((b >> 16) & 0xff) as u8 && ((a >> 24)
        & 0xff) as u8 == ((b >> 24) & 0xff) as u8 && ((a >> 32) & 0xff) as u8 == ((b >> 32)
        & 0xff) as u8 && ((a >> 40) & 0xff) as u8 == ((b >> 40) & 0xff) as u8 && ((a >> 48)
        & 0xff) as u8 == ((b >> 48) & 0xff) as u8 && ((a >> 56) & 0xff) as u8 == ((b >> 56)
        & 0xff) as u8) ==> a == b) by (bit_vector);
}

/// Appends the two little-endian bytes of `v`.
pub fn push_u16_le(out: &mut Vec<u8>, v: u16)
    ensures
        final(out)@ == old(out)@ + u16_le(v),
{
    out.push((v & 0xff) as u8);
    out.push(((v >> 8) & 0xff) as u8);
    assert(final(out)@ =~= old(out)@ + u16_le(v));
}

/// Appends the four little-endian bytes of `v`.
pub fn push_u32_le(out: &mut Vec<u8>, v: u32)
    ensures
        final(out)@ == old(out)@ + u32_le(v),
{
    out.push((v & 0xff) as u8);
    out.push(((v >> 8) & 0xff) as u8);
    out.push(((v >> 16) & 0xff) as u8);
    out.push(((v >> 24) & 0xff) as u8);
    assert(final(out)@ =~= old(out)@ + u32_le(v));
}

/// Appends the eight little-endian bytes of `v`.
pub fn push_u64_le(out: &mut Vec<u8>, v: u64)
    ensures
        final(out)@ == old(out)@ + u64_le(v),
{
    out.push((v & 0xff) as u8);
    out.push(((v >> 8) & 0xff) as u8);
    out.push(((v >> 16) & 0xff) as u8);
    out.push(((v >> 24) & 0xff) as u8);
    out.push(((v >> 32) & 0xff) as u8);
    out.push(((v >> 40) & 0xff) as u8);
    out.push(((v >> 48) & 0xff) as u8);
    out.push(((v >> 56) & 0xff) as u8);
    assert(final(out)@ =~= old(out)@ + u64_le(v));
}

/// Reads a 16-bit little-endian value at `pos`; succeeds exactly when two
/// bytes are available, and returns the unique value with those bytes.
pub fn read_u16_le(buf: &[u8], pos: usize) -> (r: Option<(u16, usize)>)
    ensures
        r is Some <==> pos + 2 <= buf@.len(),
        r matches Some((v, p)) ==> p == pos + 2 && u16_le(v) == buf@.subrange(pos as int, pos + 2),
{
    if pos < buf.len() && buf.len() - pos >= 2 {
        let b0 = buf[pos];
        let b1 = buf[pos + 1];
        let v: u16 = (b0 as u16) | ((b1 as u16) << 8);
        assert((v & 0xff) == b0 && ((v >> 8) & 0xff) == b1 ==> u16_le(v) =~= seq![b0, b1]);
        assert(v & 0xff == b0 && (v >> 8) & 0xff == b1) by (bit_vector)
            requires v == (b0 as u16) | ((b1 as u16) << 8);
        assert(buf@.subrange(pos as int, pos + 2) =~= seq![b0, b1]);
        Some((v, pos + 2))
    } else {
        None
    }
}

/// Reads a 32-bit little-endian value at `pos`; succeeds exactly when four
/// bytes are available, and returns the unique value with those bytes.
pub fn read_u32_le(buf: &[u8], pos: usize) -> (r: Option<(u32, usize)>)
    ensures
        r is Some <==> pos + 4 <= buf@.len(),
        r matches Some((v, p)) ==> p == pos + 4 && u32_le(v) == buf@.subrange(pos as int, pos + 4),
{
    if pos < buf.len() && buf.len() - pos >= 4 {
        let b0 = buf[pos];
        let b1 = buf[pos + 1];
        let b2 = buf[pos + 2];
        let b3 = buf[pos + 3];
        let v: u32 = (b0 as u32) | ((b1 as u32) << 8) | ((b2 as u32) << 16) | ((b3 as u32) << 24);
        assert(v & 0xff == b0 && (v >> 8) & 0xff == b1 && (v >> 16) & 0xff == b2
            && (v >> 24) & 0xff == b3) by (bit_vector)
            requires v == (b0 as u32) | ((b1 as u32) << 8) | ((b2 as u32) << 16)
                | ((b3 as u32) << 24);
        assert(u32_le(v) =~= seq![b0, b1, b2, b3]);
        assert(buf@.subrange(pos as int, pos + 4) =~= seq![b0, b1, b2, b3]);
        Some((v, pos + 4))
    } else {
        None
    }
}

/// Reads a 64-bit little-endian value at `pos`; succeeds exactly when eight
/// bytes are available, and returns the unique value with those bytes.
pub fn read_u64_le(buf: &[u8], pos: usize) -> (r: Option<(u64, usize)>)
    ensures
        r is Some <==> pos + 8 <= buf@.len(),
        r matches Some((v, p)) ==> p == pos + 8 && u64_le(v) == buf@.subrange(pos as int, pos + 8),
{
    if pos < buf.len() && buf.len() - pos >= 8 {
        let b0 = buf[pos];
        let b1 = buf[pos + 1];
        let b2 = buf[pos + 2];
        let b3 = buf[pos + 3];
        let b4 = buf[pos + 4];
        let b5 = buf[pos + 5];
        let b6 = buf[pos + 6];
        let b7 = buf[pos + 7];
        let v: u64 = (b0 as u64) | ((b1 as u64) << 8) | ((b2 as u64) << 16) | ((b3 as u64) << 24)
            | ((b4 as u64) << 32) | ((b5 as u64) << 40) | ((b6 as u64) << 48)
            | ((b7 as u64) << 56);
        assert(v & 0xff == b0 && (v >> 8) & 0xff == b1 && (v >> 16) & 0xff == b2
            && (v >> 24) & 0xff == b3 && (v >> 32) & 0xff == b4 && (v >> 40) & 0xff == b5
            && (v >> 48) & 0xff == b6 && (v >> 56) & 0xff == b7) by (bit_vector)
            requires v == (b0 as u64) | ((b1 as u64) << 8) | ((b2 as u64) << 16)
                | ((b3 as u64) << 24) | ((b4 as u64) << 32) | ((b5 as u64) << 40)
                | ((b6 as u64) << 48) | ((b7 as u64) << 56);
        assert(u64_le(v) =~= seq![b0, b1, b2, b3, b4, b5, b6, b7]);
        assert(buf@.subrange(pos as int, pos + 8) =~= seq![b0, b1, b2, b3, b4, b5, b6, b7]);
        Some((v, pos + 8))
    } else {
        None
    }
}

/// Whether a character sequence is small enough for a string frame.
pub open spec fn text_ok(s: Seq<char>) -> bool {
    encode_utf8(s).len() <= u64::MAX
}

/// The encoding of a string frame: a 64-bit byte count, then the UTF-8 bytes.
pub open spec fn enc_text(s: Seq<char>) -> Seq<u8> {
    u64_le(encode_utf8(s).len() as u64) + encode_utf8(s)
}

/// Relies on `String::from_utf8`: it succeeds exactly on valid UTF-8 input
/// and returns the string whose characters are the decoding of the bytes.
#[verifier::external_body]
fn string_from_utf8(bytes: Vec<u8>) -> (r: Option<String>)
    ensures
        r is Some <==> valid_utf8(bytes@),
        r matches Some(s) ==> s@ == decode_utf8(bytes@),
{
    String::from_utf8(bytes).ok()
}

/// Appends a string frame holding `s`.
pub fn push_text(out: &mut Vec<u8>, s: &str)
    ensures
        text_ok(s@),
        final(out)@ == old(out)@ + enc_text(s@),
{
    let mut bytes = s.as_bytes_vec();
    push_u64_le(out, bytes.len() as u64);
    out.append(&mut bytes);
    assert(final(out)@ =~= old(out)@ + enc_text(s@));
}

/// Reads a string frame at `pos`. Succeeds exactly when a whole frame is
/// present there, and then returns the one string that frame encodes.
pub fn read_text(buf: &[u8], pos: usize) -> (r: Result<(String, usize), DecodeError>)
    ensures
        r matches Ok(sp) ==> text_ok(sp.0@) && pos + enc_text(sp.0@).len() == sp.1 <= buf@.len()
            && buf@.subrange(pos as int, sp.1 as int) == enc_text(sp.0@),
        forall|c: Seq<char>|
            text_ok(c) && pos + enc_text(c).len() <= buf@.len()
                && buf@.subrange(pos as int, pos + enc_text(c).len()) == enc_text(c)
                ==> (r matches Ok(sp) && sp.0@ == c && sp.1 == pos + enc_text(c).len()),
        r matches Err(e) ==> (e is Eof || e is InvalidUtf8),
{
    let header = read_u64_le(buf, pos);
    match header {
        None => {
            assert(forall|c: Seq<char>| pos + enc_text(c).len() <= buf@.len() ==> pos + 8
                <= buf@.len());
            Err(DecodeError::Eof)
        },
        Some((n, p1)) => {
            let ghost head = buf@.subrange(pos as int, pos + 8);
            assert(forall|c: Seq<char>|
                text_ok(c) && pos + enc_text(c).len() <= buf@.len()
                    && buf@.subrange(pos as int, pos + enc_text(c).len()) == enc_text(c)
                    ==> #[trigger] enc_text(c).len() == 8 + encode_utf8(c).len()
                        && encode_utf8(c).len() == n) by {
                assert forall|c: Seq<char>|
                    text_ok(c) && pos + enc_text(c).len() <= buf@.len()
                        && buf@.subrange(pos as int, pos + enc_text(c).len()) == enc_text(c)
                    implies #[trigger] enc_text(c).len() == 8 + encode_utf8(c).len()
                        && encode_utf8(c).len() == n by {
                    let m = encode_utf8(c).len() as u64;
                    assert(buf@.subrange(pos as int, pos + 8) =~= enc_text(c).subrange(0, 8));
                    assert(enc_text(c).subrange(0, 8) =~= u64_le(m));
                    lemma_u64_le_injective(m, n);
                }
            }
            if n > (buf.len() - p1) as u64 {
                Err(DecodeError::Eof)
            } else {
                let end = p1 + (n as usize);
                let bytes = slice_to_vec(slice_subrange(buf, p1, end));
                let ghost seg = buf@.subrange(p1 as int, end as int);
                assert(forall|c: Seq<char>|
                    text_ok(c) && pos + enc_text(c).len() <= buf@.len()
                        && buf@.subrange(pos as int, pos + enc_text(c).len()) == enc_text(c)
                        ==> #[trigger] encode_utf8(c) == seg) by {
                    assert forall|c: Seq<char>|
                        text_ok(c) && pos + enc_text(c).len() <= buf@.len()
                            && buf@.subrange(pos as int, pos + enc_text(c).len()) == enc_text(c)
                        implies #[trigger] encode_utf8(c) == seg by {
                        assert(encode_utf8(c) =~= enc_text(c).subrange(8, enc_text(c).len() as int));
                        assert(enc_text(c).subrange(8, enc_text(c).len() as int)
                            =~= buf@.subrange(p1 as int, end as int));
                    }
                }
                match string_from_utf8(bytes) {
                    None => Err(DecodeError::InvalidUtf8),
                    Some(s) => {
                        assert(encode_utf8(s@) == seg);
                        assert(buf@.subrange(pos as int, end as int) =~= u64_le(n) + seg);
                        assert(enc_text(s@) =~= u64_le(n) + seg);
                        Ok((s, end))
                    },
                }
            }
        },
    }
}

/// The bytes of a run of wide (16-bit) code units, each little-endian.
pub open spec fn u16s_le(l: Seq<u16>) -> Seq<u8>
    decreases l.len(),
{
    if l.len() == 0 {
        Seq::empty()
    } else {
        u16_le(l[0]) + u16s_le(l.drop_first())
    }
}

/// A run of wide code units occupies two bytes per unit.
pub proof fn lemma_u16s_le_len(l: Seq<u16>)
    ensures
        u16s_le(l).len() == 2 * l.len(),
    decreases l.len(),
{
    if l.len() > 0 {
        lemma_u16s_le_len(l.drop_first());
    }
}

/// The bytes of a concatenation are the concatenated bytes.
pub proof fn lemma_u16s_le_concat(a: Seq<u16>, b: Seq<u16>)
    ensures
        u16s_le(a + b) == u16s_le(a) + u16s_le(b),
    decreases a.len(),
{
    if a.len() == 0 {
        assert(a + b =~= b);
        assert(u16s_le(a) + u16s_le(b) =~= u16s_le(b));
    } else {
        assert((a + b).drop_first() =~= a.drop_first() + b);
        lemma_u16s_le_concat(a.drop_first(), b);
        assert(u16s_le(a + b) =~= u16s_le(a) + u16s_le(b));
    }
}

/// The bytes of a single wide code unit are its little-endian bytes.
pub proof fn lemma_u16s_le_single(x: u16)
    ensures
        u16s_le(seq![x]) == u16_le(x),
{
    assert(seq![x].drop_first() =~= Seq::<u16>::empty());
    assert(u16s_le(Seq::<u16>::empty()) =~= Seq::<u8>::empty());
    assert(u16s_le(seq![x]) =~= u16_le(x));
}

/// Appends the little-endian bytes of a run of wide code units.
pub fn push_u16s_le(out: &mut Vec<u8>, v: &Vec<u16>)
    ensures
        final(out)@ == old(out)@ + u16s_le(v@),
{
    let mut i: usize = 0;
    while i < v.len()
        invariant
            i <= v@.len(),
            out@ == old(out)@ + u16s_le(v@.take(i as int)),
        decreases v@.len() - i,
    {
        push_u16_le(out, v[i]);
        proof {
            let x = v@[i as int];
            assert(v@.take(i + 1) =~= v@.take(i as int) + seq![x]);
            lemma_u16s_le_concat(v@.take(i as int), seq![x]);
            lemma_u16s_le_single(x);
        }
        i = i + 1;
    }
    assert(v@.take(v@.len() as int) =~= v@);
    assert(final(out)@ =~= old(out)@ + u16s_le(v@));
}

/// The bytes of a run of 16-bit values, each little-endian.
pub open spec fn i16s_le(l: Seq<i16>) -> Seq<u8>
    decreases l.len(),
{
    if l.len() == 0 {
        Seq::empty()
    } else {
        u16_le(l[0] as u16) + i16s_le(l.drop_first())
    }
}

/// Whether a value list is small enough for a list frame.
pub open spec fn list16_ok(l: Seq<i16>) -> bool {
    l.len() <= u64::MAX
}

/// The encoding of a list frame: a 64-bit element count, then the elements.
pub open spec fn enc_list16(l: Seq<i16>) -> Seq<u8> {
    u64_le(l.len() as u64) + i16s_le(l)
}

/// A run of 16-bit values occupies two bytes per value.
pub proof fn lemma_i16s_le_len(l: Seq<i16>)
    ensures
        i16s_le(l).len() == 2 * l.len(),
    decreases l.len(),
{
    if l.len() > 0 {
        lemma_i16s_le_len(l.drop_first());
    }
}

/// The bytes of a concatenation are the concatenated bytes.
pub proof fn lemma_i16s_le_concat(a: Seq<i16>, b: Seq<i16>)
    ensures
        i16s_le(a + b) == i16s_le(a) + i16s_le(b),
    decreases a.len(),
{
    if a.len() == 0 {
        assert(a + b =~= b);
        assert(i16s_le(a) + i16s_le(b) =~= i16s_le(b));
    } else {
        assert((a + b).drop_first() =~= a.drop_first() + b);
        lemma_i16s_le_concat(a.drop_first(), b);
        assert(i16s_le(a + b) =~= i16s_le(a) + i16s_le(b));
    }
}

/// The bytes of a one-value list are that value's little-endian bytes.
pub proof fn lemma_i16s_le_single(x: i16)
    ensures
        i16s_le(seq![x]) == u16_le(x as u16),
{
    assert(seq![x].drop_first() =~= Seq::<i16>::empty());
    assert(i16s_le(Seq::<i16>::empty()) =~= Seq::<u8>::empty());
    assert(i16s_le(seq![x]) =~= u16_le(x as u16));
}

/// Two equally long value lists with the same bytes are the same list.
pub proof fn lemma_i16s_le_injective(a: Seq<i16>, b: Seq<i16>)
    requires
        a.len() == b.len(),
        i16s_le(a) == i16s_le(b),
    ensures
        a =~= b,
    decreases a.len(),
{
    if a.len() > 0 {
        lemma_i16s_le_len(a.drop_first());
        lemma_i16s_le_len(b.drop_first());
        let x = a[0] as u16;
        let y = b[0] as u16;
        assert(u16_le(x) =~= i16s_le(a).subrange(0, 2));
        assert(u16_le(y) =~= i16s_le(b).subrange(0, 2));
        lemma_u16_le_injective(x, y);
        let a0 = a[0];
        let b0 = b[0];
        assert(((a0 as u16) == (b0 as u16)) ==> a0 == b0) by (bit_vector);
        assert(i16s_le(a.drop_first()) =~= i16s_le(a).subrange(2, i16s_le(a).len() as int));
        assert(i16s_le(b.drop_first()) =~= i16s_le(b).subrange(2, i16s_le(b).len() as int));
        lemma_i16s_le_injective(a.drop_first(), b.drop_first());
        assert(a =~= seq![a[0]] + a.drop_first());
        assert(b =~= seq![b[0]] + b.drop_first());
    }
}

/// Appends a list frame holding `v`.
pub fn push_list16(out: &mut Vec<u8>, v: &Vec<i16>)
    ensures
        list16_ok(v@),
        final(out)@ == old(out)@ + enc_list16(v@),
{
    push_u64_le(out, v.len() as u64);
    let mut i: usize = 0;
    while i < v.len()
        invariant
            i <= v@.len(),
            out@ == old(out)@ + u64_le(v@.len() as u64) + i16s_le(v@.take(i as int)),
        decreases v@.len() - i,
    {
        push_u16_le(out, v[i] as u16);
        proof {
            let x = v@[i as int];
            assert(v@.take(i + 1) =~= v@.take(i as int) + seq![x]);
            lemma_i16s_le_concat(v@.take(i as int), seq![x]);
            lemma_i16s_le_single(x);
        }
        i = i + 1;
    }
    assert(v@.take(v@.len() as int) =~= v@);
    assert(final(out)@ =~= old(out)@ + enc_list16(v@));
}

/// Reads a list frame at `pos`. Succeeds exactly when a whole frame is
/// present there, and then returns the one value list that frame encodes.
pub fn read_list16(buf: &[u8], pos: usize) -> (r: Result<(Vec<i16>, usize), DecodeError>)
    ensures
        r matches Ok(vp) ==> list16_ok(vp.0@) && pos + enc_list16(vp.0@).len() == vp.1
            <= buf@.len() && buf@.subrange(pos as int, vp.1 as int) == enc_list16(vp.0@),
        forall|l: Seq<i16>|
            list16_ok(l) && pos + enc_list16(l).len() <= buf@.len()
                && buf@.subrange(pos as int, pos + enc_list16(l).len()) == enc_list16(l)
                ==> (r matches Ok(vp) && vp.0@ == l && vp.1 == pos + enc_list16(l).len()),
        r matches Err(e) ==> e is Eof,
{
    proof {
        assert forall|l: Seq<i16>| true implies #[trigger] enc_list16(l).len() == 8 + 2
            * l.len() by {
            lemma_i16s_le_len(l);
        }
    }
    let header = read_u64_le(buf, pos);
    match header {
        None => Err(DecodeError::Eof),
        Some((n, p1)) => {
            assert(forall|l: Seq<i16>|
                list16_ok(l) && pos + enc_list16(l).len() <= buf@.len()
                    && buf@.subrange(pos as int, pos + enc_list16(l).len()) == enc_list16(l)
                    ==> #[trigger] l.len() == n) by {
                assert forall|l: Seq<i16>|
                    list16_ok(l) && pos + enc_list16(l).len() <= buf@.len()
                        && buf@.subrange(pos as int, pos + enc_list16(l).len()) == enc_list16(l)
                    implies #[trigger] l.len() == n by {
                    let m = l.len() as u64;
                    assert(buf@.subrange(pos as int, pos + 8) =~= enc_list16(l).subrange(0, 8));
                    assert(enc_list16(l).subrange(0, 8) =~= u64_le(m));
                    lemma_u64_le_injective(m, n);
                }
            }
            let remaining = (buf.len() - p1) as u64;
            if n > remaining / 2 {
                Err(DecodeError::Eof)
            } else {
                assert(n <= usize::MAX as u64);
                let count = n as usize;
                assert(p1 + 2 * count <= buf@.len());
                let mut out: Vec<i16> = Vec::new();
                let mut i: usize = 0;
                while i < count
                    invariant
                        i <= count,
                        buf@.len() <= usize::MAX,
                        p1 + 2 * count <= buf@.len(),
                        out@.len() == i,
                        i16s_le(out@) == buf@.subrange(p1 as int, p1 + 2 * i),
                    decreases count - i,
                {
                    let e = read_u16_le(buf, p1 + 2 * i);
                    let (w, _) = e.unwrap();
                    let ghost prev = out@;
                    out.push(w as i16);
                    proof {
                        let x = w as i16;
                        assert(prev + seq![x] =~= out@);
                        lemma_i16s_le_concat(prev, seq![x]);
                        assert((w as i16) as u16 == w) by (bit_vector);
                        lemma_i16s_le_single(x);
                        assert(i16s_le(seq![x]) =~= u16_le(w));
                        assert(buf@.subrange(p1 as int, p1 + 2 * (i + 1)) =~= buf@.subrange(
                            p1 as int, p1 + 2 * i) + buf@.subrange(p1 + 2 * i, p1 + 2 * i + 2));
                    }
                    i = i + 1;
                }
                let end = p1 + 2 * count;
                proof {
                    lemma_i16s_le_len(out@);
                    assert(buf@.subrange(pos as int, end as int) =~= u64_le(n) + buf@.subrange(
                        p1 as int, end as int));
                    assert(enc_list16(out@) =~= u64_le(n) + i16s_le(out@));
                    assert forall|l: Seq<i16>|
                        list16_ok(l) && pos + enc_list16(l).len() <= buf@.len()
                            && buf@.subrange(pos as int, pos + enc_list16(l).len())
                            == enc_list16(l)
                        implies out@ == l by {
                        assert(i16s_le(l) =~= enc_list16(l).subrange(8, enc_list16(l).len()
                            as int));
                        assert(enc_list16(l).subrange(8, enc_list16(l).len() as int)
                            =~= buf@.subrange(p1 as int, end as int));
                        lemma_i16s_le_injective(out@, l);
                    }
                }
                Ok((out, end))
            }
        },
    }
}

} // verus!
