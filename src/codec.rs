use vstd::prelude::*;
use vstd::string::StringSliceAdditionalSpecFns;
use vstd::utf8::{decode_utf8, encode_utf8, valid_utf8};

use crate::error::DecodeError;
use crate::varint::{decode_varint_at, encode_varint, varint_bytes, varint_decode};

verus! {

/// Relies on `std::str::from_utf8`: it succeeds exactly on well-formed
/// UTF-8, and the text it returns is made of the given bytes.
#[verifier::external_body]
fn utf8_str(b: &[u8]) -> (r: Option<&str>)
    ensures
        r is Some <==> valid_utf8(b@),
        r is Some ==> r->0.spec_bytes() == b@,
{
    std::str::from_utf8(b).ok()
}

/// A text field: the varint length of its UTF-8 bytes, then the bytes.
pub open spec fn text_bytes(s: Seq<char>) -> Seq<u8> {
    varint_bytes(encode_utf8(s).len()) + encode_utf8(s)
}

/// A raw field: the varint length, then the bytes.
pub open spec fn raw_bytes(r: Seq<u8>) -> Seq<u8> {
    varint_bytes(r.len()) + r
}

/// A double: its eight bytes, most significant first.
pub open spec fn double_bytes(d: u64) -> Seq<u8> {
    seq![
        (d >> 56) as u8,
        (d >> 48) as u8,
        (d >> 40) as u8,
        (d >> 32) as u8,
        (d >> 24) as u8,
        (d >> 16) as u8,
        (d >> 8) as u8,
        d as u8,
    ]
}

pub open spec fn be_u64(b0: u8, b1: u8, b2: u8, b3: u8, b4: u8, b5: u8, b6: u8, b7: u8) -> u64 {
    (b0 as u64) << 56 | (b1 as u64) << 48 | (b2 as u64) << 40 | (b3 as u64) << 32 | (b4 as u64)
        << 24 | (b5 as u64) << 16 | (b6 as u64) << 8 | (b7 as u64)
}

/// Reads the length-prefixed bytes of a field at `pos`: the bytes and the
/// position past them.
pub open spec fn parse_raw(s: Seq<u8>, pos: int) -> Result<(Seq<u8>, int), DecodeError> {
    match varint_decode(s.subrange(pos, s.len() as int)) {
        None => Err(DecodeError::TruncatedInput),
        Some((l, k)) => {
            let start = pos + k;
            if l > s.len() - start {
                Err(DecodeError::TruncatedInput)
            } else {
                Ok((s.subrange(start, start + l), start + l))
            }
        },
    }
}

/// Reads a text field at `pos`.
pub open spec fn parse_text(s: Seq<u8>, pos: int) -> Result<(Seq<char>, int), DecodeError> {
    match parse_raw(s, pos) {
        Err(e) => Err(e),
        Ok((b, end)) => if valid_utf8(b) {
            Ok((decode_utf8(b), end))
        } else {
            Err(DecodeError::InvalidEncoding)
        },
    }
}

/// Reads a big-endian double at `pos`.
pub open spec fn parse_double(s: Seq<u8>, pos: int) -> Result<(u64, int), DecodeError> {
    if pos + 8 > s.len() {
        Err(DecodeError::TruncatedInput)
    } else {
        Ok(
            (
                be_u64(s[pos], s[pos + 1], s[pos + 2], s[pos + 3], s[pos + 4], s[pos + 5], s[pos + 6], s[pos + 7]),
                pos + 8,
            ),
        )
    }
}

proof fn lemma_be_u64(d: u64)
    ensures
        be_u64(
            (d >> 56) as u8,
            (d >> 48) as u8,
            (d >> 40) as u8,
            (d >> 32) as u8,
            (d >> 24) as u8,
            (d >> 16) as u8,
            (d >> 8) as u8,
            d as u8,
        ) == d,
{
    assert(((((d >> 56) as u8) as u64) << 56 | (((d >> 48) as u8) as u64) << 48 | (((d >> 40) as u8) as u64) << 40
        | (((d >> 32) as u8) as u64) << 32 | (((d >> 24) as u8) as u64) << 24 | (((d >> 16) as u8) as u64) << 16
        | (((d >> 8) as u8) as u64) << 8 | ((d as u8) as u64)) == d) by (bit_vector);
}

/// Eight bytes written by `double_bytes` read back as the same double.
pub proof fn lemma_double_round_trip(d: u64, s: Seq<u8>, pos: int)
    requires
        0 <= pos,
        pos + 8 <= s.len(),
        s.subrange(pos, pos + 8) == double_bytes(d),
    ensures
        parse_double(s, pos) == Ok::<(u64, int), DecodeError>((d, pos + 8)),
{
    lemma_be_u64(d);
    let b = double_bytes(d);
    assert(s[pos] == b[0] && s[pos + 1] == b[1] && s[pos + 2] == b[2] && s[pos + 3] == b[3]);
    assert(s[pos + 4] == b[4] && s[pos + 5] == b[5] && s[pos + 6] == b[6] && s[pos + 7] == b[7]);
}

/// Length-prefixed bytes read back from their encoding.
pub proof fn lemma_raw_round_trip(r: Seq<u8>, s: Seq<u8>, pos: int)
    requires
        0 <= pos,
        r.len() <= u64::MAX,
        pos + raw_bytes(r).len() <= s.len(),
        s.subrange(pos, pos + raw_bytes(r).len()) == raw_bytes(r),
    ensures
        parse_raw(s, pos) == Ok::<(Seq<u8>, int), DecodeError>((r, pos + raw_bytes(r).len())),
{
    let k = varint_bytes(r.len()).len();
    let rest = s.subrange(pos + k, s.len() as int);
    crate::varint::lemma_varint_round_trip(r.len() as u64, rest);
    assert(s.subrange(pos, s.len() as int) =~= varint_bytes(r.len()) + rest);
    assert(s.subrange(pos + k, pos + k + r.len()) =~= r) by {
        assert forall|i: int| 0 <= i < r.len() implies s.subrange(pos + k, pos + k + r.len())[i] == r[i] by {
            assert(s.subrange(pos, pos + raw_bytes(r).len())[k + i] == raw_bytes(r)[k + i]);
        }
    }
}

/// A text field read back from its encoding.
pub proof fn lemma_text_round_trip(t: Seq<char>, s: Seq<u8>, pos: int)
    requires
        0 <= pos,
        encode_utf8(t).len() <= u64::MAX,
        pos + text_bytes(t).len() <= s.len(),
        s.subrange(pos, pos + text_bytes(t).len()) == text_bytes(t),
    ensures
        parse_text(s, pos) == Ok::<(Seq<char>, int), DecodeError>((t, pos + text_bytes(t).len())),
{
    lemma_raw_round_trip(encode_utf8(t), s, pos);
    vstd::utf8::encode_utf8_valid_utf8(t);
    vstd::utf8::encode_utf8_decode_utf8(t);
}

/// Appends every byte of `b` to `out`.
pub(crate) fn append_bytes(out: &mut Vec<u8>, b: &[u8])
    ensures
        final(out)@ == old(out)@ + b@,
{
    let ghost start = out@;
    let mut i: usize = 0;
    while i < b.len()
        invariant
            i <= b@.len(),
            out@ == start + b@.subrange(0, i as int),
        decreases b@.len() - i,
    {
        out.push(b[i]);
        i = i + 1;
        assert(out@ =~= start + b@.subrange(0, i as int));
    }
    assert(b@.subrange(0, i as int) =~= b@);
}

/// Appends a text field.
pub fn encode_text(s: &String, out: &mut Vec<u8>)
    ensures
        final(out)@ == old(out)@ + text_bytes(s@),
{
    let b = s.as_str().as_bytes();
    encode_varint(b.len() as u64, out);
    append_bytes(out, b);
    assert(final(out)@ =~= old(out)@ + text_bytes(s@));
}

/// Appends a raw field.
pub fn encode_raw(r: &Vec<u8>, out: &mut Vec<u8>)
    ensures
        final(out)@ == old(out)@ + raw_bytes(r@),
{
    encode_varint(r.len() as u64, out);
    append_bytes(out, r.as_slice());
    assert(final(out)@ =~= old(out)@ + raw_bytes(r@));
}

/// Appends a double's eight bytes.
pub fn encode_double(d: u64, out: &mut Vec<u8>)
    ensures
        final(out)@ == old(out)@ + double_bytes(d),
{
    out.push((d >> 56) as u8);
    out.push((d >> 48) as u8);
    out.push((d >> 40) as u8);
    out.push((d >> 32) as u8);
    out.push((d >> 24) as u8);
    out.push((d >> 16) as u8);
    out.push((d >> 8) as u8);
    out.push(d as u8);
    assert(final(out)@ =~= old(out)@ + double_bytes(d));
}

pub(crate) fn decode_raw_at(buf: &[u8], pos: usize) -> (r: Result<(Vec<u8>, usize), DecodeError>)
    requires
        pos <= buf@.len(),
    ensures
        match parse_raw(buf@, pos as int) {
            Ok((b, e)) => r is Ok && (r->Ok_0).0@ == b && (r->Ok_0).1 == e && pos < e <= buf@.len(),
            Err(x) => r == Err::<(Vec<u8>, usize), DecodeError>(x),
        },
{
    match decode_varint_at(buf, pos) {
        Err(e) => Err(e),
        Ok((l, p1)) => {
            proof { crate::varint::lemma_varint_decode_len(buf@.subrange(pos as int, buf@.len() as int)); }
            if l > (buf.len() - p1) as u64 {
                return Err(DecodeError::TruncatedInput);
            }
            let end = p1 + l as usize;
            let v = vstd::slice::slice_to_vec(vstd::slice::slice_subrange(buf, p1, end));
            Ok((v, end))
        },
    }
}

pub(crate) fn decode_text_at(buf: &[u8], pos: usize) -> (r: Result<(String, usize), DecodeError>)
    requires
        pos <= buf@.len(),
    ensures
        match parse_text(buf@, pos as int) {
            Ok((t, e)) => r is Ok && (r->Ok_0).0@ == t && (r->Ok_0).1 == e && pos < e <= buf@.len(),
            Err(x) => r == Err::<(String, usize), DecodeError>(x),
        },
{
    match decode_varint_at(buf, pos) {
        Err(e) => Err(e),
        Ok((l, p1)) => {
            proof { crate::varint::lemma_varint_decode_len(buf@.subrange(pos as int, buf@.len() as int)); }
            if l > (buf.len() - p1) as u64 {
                return Err(DecodeError::TruncatedInput);
            }
            let end = p1 + l as usize;
            let sub = vstd::slice::slice_subrange(buf, p1, end);
            match utf8_str(sub) {
                None => Err(DecodeError::InvalidEncoding),
                Some(t) => {
                    proof { vstd::utf8::encode_utf8_decode_utf8(t@); }
                    Ok((t.to_owned(), end))
                },
            }
        },
    }
}

pub(crate) fn decode_double_at(buf: &[u8], pos: usize) -> (r: Result<(u64, usize), DecodeError>)
    requires
        pos <= buf@.len(),
    ensures
        match parse_double(buf@, pos as int) {
            Ok((d, e)) => r is Ok && (r->Ok_0).0 == d && (r->Ok_0).1 == e && pos < e <= buf@.len(),
            Err(x) => r == Err::<(u64, usize), DecodeError>(x),
        },
{
    if buf.len() - pos < 8 {
        return Err(DecodeError::TruncatedInput);
    }
    let d = (buf[pos] as u64) << 56 | (buf[pos + 1] as u64) << 48 | (buf[pos + 2] as u64) << 40
        | (buf[pos + 3] as u64) << 32 | (buf[pos + 4] as u64) << 24 | (buf[pos + 5] as u64) << 16
        | (buf[pos + 6] as u64) << 8 | (buf[pos + 7] as u64);
    Ok((d, pos + 8))
}

} // verus!
