use vstd::prelude::*;

use crate::error::DecodeError;

verus! {

/// The largest number of bytes a decodable varint may take: ten groups of
/// seven bits cover every `u64`.
pub const MAX_VARINT_LEN: usize = 10;

/// Unsigned LEB128: seven bits per byte, least significant group first, the
/// high bit set on every byte but the last. This is the minimal encoding.
pub open spec fn varint_bytes(n: nat) -> Seq<u8>
    decreases n,
{
    if n < 128 {
        seq![n as u8]
    } else {
        seq![(n % 128 + 128) as u8] + varint_bytes(n / 128)
    }
}

/// Reads one LEB128 sequence from the front of `s`, without any width
/// limit: the value and the number of bytes up to and including the first
/// byte whose high bit is clear. `None` when no such byte exists.
pub open spec fn varint_parse(s: Seq<u8>) -> Option<(nat, nat)>
    decreases s.len(),
{
    if s.len() == 0 {
        None
    } else if s[0] < 128 {
        Some((s[0] as nat, 1))
    } else {
        match varint_parse(s.drop_first()) {
            Some((v, k)) => Some(((s[0] - 128) as nat + 128 * v, k + 1)),
            None => None,
        }
    }
}

/// What `decode_varint` reads from the front of `s`: a sequence of at most
/// `MAX_VARINT_LEN` bytes whose value fits in a `u64`.
pub open spec fn varint_decode(s: Seq<u8>) -> Option<(u64, nat)> {
    match varint_parse(s) {
        Some((v, k)) => if k <= MAX_VARINT_LEN && v <= u64::MAX {
            Some((v as u64, k))
        } else {
            None
        },
        None => None,
    }
}

proof fn lemma_varint_parse_prefix(n: nat, rest: Seq<u8>)
    ensures
        varint_parse(varint_bytes(n) + rest) == Some((n, varint_bytes(n).len())),
    decreases n,
{
    let s = varint_bytes(n) + rest;
    if n < 128 {
        assert(s[0] == n as u8);
    } else {
        lemma_varint_parse_prefix(n / 128, rest);
        assert(s.drop_first() =~= varint_bytes(n / 128) + rest);
        assert(s[0] == (n % 128 + 128) as u8);
    }
}

/// The minimal encoding of a value below `128^j` takes at most `j` bytes.
proof fn lemma_varint_len_bound(n: nat, j: nat, p: int)
    requires
        p == vstd::arithmetic::power::pow(128, j),
        n < p,
        j >= 1,
    ensures
        varint_bytes(n).len() <= j,
        varint_bytes(n).len() >= 1,
    decreases j,
{
    vstd::arithmetic::power::lemma_pow_positive(128, j);
    if n >= 128 {
        assert(j >= 2) by {
            if j == 1 {
                vstd::arithmetic::power::lemma_pow1(128);
            }
        }
        let q = vstd::arithmetic::power::pow(128, (j - 1) as nat);
        vstd::arithmetic::power::lemma_pow_positive(128, (j - 1) as nat);
        assert(p == 128 * q) by {
            vstd::arithmetic::power::lemma_pow_adds(128, 1, (j - 1) as nat);
            vstd::arithmetic::power::lemma_pow1(128);
        }
        assert(n / 128 < q) by (nonlinear_arith)
            requires n < p, p == 128 * q;
        lemma_varint_len_bound(n / 128, (j - 1) as nat, q);
    }
}

/// No LEB128 sequence for `n` is shorter than `varint_bytes(n)`: the
/// encoder's output is the minimal one.
pub proof fn lemma_varint_minimal(s: Seq<u8>)
    ensures
        varint_parse(s) matches Some((n, k)) ==> k >= varint_bytes(n).len(),
    decreases s.len(),
{
    if s.len() > 0 && s[0] >= 128 {
        lemma_varint_minimal(s.drop_first());
        if let Some((v, k)) = varint_parse(s.drop_first()) {
            let n = (s[0] - 128) as nat + 128 * v;
            if n >= 128 {
                assert(n / 128 == v && n % 128 == s[0] - 128) by (nonlinear_arith)
                    requires n == (s[0] - 128) as nat + 128 * v, 0 <= s[0] - 128 < 128;
            }
        }
    }
}

/// Decoding the minimal encoding of a `u64`, whatever follows it, gives the
/// value back and consumes exactly the encoding.
pub proof fn lemma_varint_round_trip(n: u64, rest: Seq<u8>)
    ensures
        varint_decode(varint_bytes(n as nat) + rest) == Some((n, varint_bytes(n as nat).len())),
        1 <= varint_bytes(n as nat).len() <= MAX_VARINT_LEN,
{
    lemma_varint_parse_prefix(n as nat, rest);
    assert(vstd::arithmetic::power::pow(128, 10) == 0x40_0000_0000_0000_0000) by {
        reveal_with_fuel(vstd::arithmetic::power::pow, 11);
    }
    lemma_varint_len_bound(n as nat, 10, vstd::arithmetic::power::pow(128, 10));
}

/// A decoded varint takes at least one byte and no more than the input.
pub proof fn lemma_varint_decode_len(s: Seq<u8>)
    ensures
        varint_decode(s) matches Some((v, k)) ==> 1 <= k <= s.len(),
{
    lemma_varint_parse_len(s);
}

proof fn lemma_varint_parse_len(s: Seq<u8>)
    ensures
        varint_parse(s) matches Some((v, k)) ==> 1 <= k <= s.len(),
    decreases s.len(),
{
    if s.len() > 0 && s[0] >= 128 {
        lemma_varint_parse_len(s.drop_first());
    }
}

/// Appends the minimal LEB128 encoding of `n` to `out`.
pub fn encode_varint(n: u64, out: &mut Vec<u8>)
    ensures
        final(out)@ == old(out)@ + varint_bytes(n as nat),
{
    let mut rem: u64 = n;
    let ghost start = out@;
    while rem >= 128
        invariant
            start + varint_bytes(n as nat) == out@ + varint_bytes(rem as nat),
        decreases rem,
    {
        let ghost before = out@;
        out.push((rem % 128 + 128) as u8);
        proof {
            assert(varint_bytes(rem as nat) == seq![(rem % 128 + 128) as u8] + varint_bytes(
                (rem / 128) as nat,
            ));
            assert(out@ + varint_bytes((rem / 128) as nat) =~= before + varint_bytes(rem as nat));
        }
        rem = rem / 128;
    }
    out.push(rem as u8);
    assert(out@ =~= start + varint_bytes(n as nat));
}

/// Reads a varint from `buf` starting at `pos`; returns the value and the
/// position just past it.
pub(crate) fn decode_varint_at(buf: &[u8], pos: usize) -> (r: Result<(u64, usize), DecodeError>)
    requires
        pos <= buf@.len(),
    ensures
        match varint_decode(buf@.subrange(pos as int, buf@.len() as int)) {
            Some((v, k)) => r == Ok::<(u64, usize), DecodeError>((v, (pos + k) as usize)),
            None => r == Err::<(u64, usize), DecodeError>(DecodeError::TruncatedInput),
        },
{
    let ghost s = buf@.subrange(pos as int, buf@.len() as int);
    let mut i: usize = pos;
    let mut acc: u128 = 0;
    let mut mult: u128 = 1;
    let mut n: usize = 0;
    proof {
        vstd::arithmetic::power::lemma_pow0(128);
    }
    while i < buf.len()
        invariant
            pos <= i <= buf@.len(),
            n == i - pos,
            n < MAX_VARINT_LEN,
            acc <= u64::MAX,
            mult == vstd::arithmetic::power::pow(128, n as nat),
            mult <= 0x8000_0000_0000_0000,
            s == buf@.subrange(pos as int, buf@.len() as int),
            match varint_parse(buf@.subrange(i as int, buf@.len() as int)) {
                None => varint_parse(s) is None,
                Some((v, k)) => varint_parse(s) == Some(((acc + mult * v) as nat, (n + k) as nat)),
            },
        decreases buf@.len() - i,
    {
        let b = buf[i];
        let ghost t = buf@.subrange(i as int, buf@.len() as int);
        assert(t[0] == b);
        assert(mult * (b as u128) <= 0x8000_0000_0000_0000 * 255) by (nonlinear_arith)
            requires mult <= 0x8000_0000_0000_0000, b <= 255;
        if b < 128 {
            let total: u128 = acc + mult * (b as u128);
            assert(varint_parse(s) == Some(((acc + mult * b) as nat, (n + 1) as nat)));
            if total > u64::MAX as u128 {
                return Err(DecodeError::TruncatedInput);
            }
            return Ok((total as u64, i + 1));
        }
        assert(t.drop_first() =~= buf@.subrange(i + 1, buf@.len() as int));
        let low: u128 = (b - 128) as u128;
        proof {
            match varint_parse(t.drop_first()) {
                Some((v, k)) => {
                    assert(acc + mult * ((b - 128) as nat + 128 * v) == (acc + mult * low) + (
                    mult * 128) * v) by (nonlinear_arith)
                        requires low == b - 128;
                },
                None => {},
            }
        }
        assert(mult * low <= mult * (b as u128)) by (nonlinear_arith)
            requires low == b - 128, mult >= 0;
        let next_acc: u128 = acc + mult * low;
        if next_acc > u64::MAX as u128 || n + 1 >= MAX_VARINT_LEN {
            proof {
                match varint_parse(t.drop_first()) {
                    Some((v, k)) => {
                        assert((acc + mult * low) + (mult * 128) * v >= next_acc) by (nonlinear_arith)
                            requires next_acc == acc + mult * low, mult >= 0, v >= 0;
                    },
                    None => {},
                }
            }
            return Err(DecodeError::TruncatedInput);
        }
        proof {
            vstd::arithmetic::power::lemma_pow_adds(128, n as nat, 1);
            vstd::arithmetic::power::lemma_pow1(128);
            assert(n + 1 <= 9);
            vstd::arithmetic::power::lemma_pow_increases(128, (n + 1) as nat, 9);
            assert(vstd::arithmetic::power::pow(128, 9) == 0x8000_0000_0000_0000) by {
                reveal_with_fuel(vstd::arithmetic::power::pow, 10);
            }
        }
        acc = next_acc;
        mult = mult * 128;
        i = i + 1;
        n = n + 1;
    }
    assert(buf@.subrange(i as int, buf@.len() as int).len() == 0);
    Err(DecodeError::TruncatedInput)
}

/// Reads a varint from the front of `buf`: the value and the number of
/// bytes it took. Fails with `TruncatedInput` where the buffer ends inside
/// the sequence or the value does not fit in 64 bits.
pub fn decode_varint(buf: &[u8]) -> (r: Result<(u64, usize), DecodeError>)
    ensures
        match varint_decode(buf@) {
            Some((v, k)) => r == Ok::<(u64, usize), DecodeError>((v, k as usize)),
            None => r == Err::<(u64, usize), DecodeError>(DecodeError::TruncatedInput),
        },
{
    assert(buf@.subrange(0, buf@.len() as int) =~= buf@);
    decode_varint_at(buf, 0)
}

} // verus!
