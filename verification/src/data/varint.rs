//! Variable-length integers: seven bits per byte, least significant group first,
//! `0x80` set on every byte but the last, at most five bytes for 32 bits.

use vstd::prelude::*;
use super::DataError;

verus! {

/// Weight of the `i`-th seven-bit group, `128^i`, for the five groups of 32 bits.
pub open spec fn group_weight(i: int) -> int {
    if i <= 0 {
        1
    } else if i == 1 {
        0x80
    } else if i == 2 {
        0x4000
    } else if i == 3 {
        0x20_0000
    } else {
        0x1000_0000
    }
}

/// Number of bytes that the variable-length form of a 32-bit pattern takes.
pub open spec fn varint_width(bits: u32) -> nat {
    if bits < 0x80 {
        1
    } else if bits < 0x4000 {
        2
    } else if bits < 0x20_0000 {
        3
    } else if bits < 0x1000_0000 {
        4
    } else {
        5
    }
}

/// The `i`-th byte of the variable-length form of `bits`.
pub open spec fn varint_byte(bits: u32, i: int) -> u8 {
    let group = (bits as int / group_weight(i)) % 0x80;
    if i + 1 < varint_width(bits) {
        (group + 0x80) as u8
    } else {
        group as u8
    }
}

/// The variable-length form of a 32-bit pattern.
pub open spec fn varint_groups(bits: u32) -> Seq<u8> {
    Seq::new(varint_width(bits), |i: int| varint_byte(bits, i))
}

/// The variable-length form of a signed value: that of its two's complement pattern.
pub open spec fn varint_encoding(value: i32) -> Seq<u8> {
    varint_groups(value as u32)
}

/// Where the variable-length integer that starts `s` ends, looking from byte `i` on:
/// the count of its bytes, or the fault that a reader meets first.
pub open spec fn varint_end(s: Seq<u8>, i: nat) -> Result<nat, DataError>
    decreases 5 - i,
{
    if i >= 5 {
        Err(DataError::VarIntIsSoBig)
    } else if i >= s.len() {
        Err(DataError::ReadError)
    } else if s[i as int] < 0x80 {
        Ok(i + 1)
    } else {
        varint_end(s, i + 1)
    }
}

/// What the `i`-th byte of `s` adds to a value of `n` groups.
pub open spec fn group_term(s: Seq<u8>, n: nat, i: int) -> int {
    if i < n {
        (s[i] % 0x80) as int * group_weight(i)
    } else {
        0
    }
}

/// The sum of the first `n` seven-bit groups of `s`, each at its weight.
pub open spec fn varint_sum(s: Seq<u8>, n: nat) -> int {
    group_term(s, n, 0) + group_term(s, n, 1) + group_term(s, n, 2) + group_term(s, n, 3)
        + group_term(s, n, 4)
}

/// The signed value that a sum of groups stands for: its low 32 bits as two's complement.
pub open spec fn varint_value(sum: int) -> i32 {
    ((sum % 0x1_0000_0000) as u32) as i32
}

/// The variable-length integer at the start of `s`: its value and the count of
/// its bytes. `VarIntIsSoBig` where five bytes all ask for another, `ReadError`
/// where `s` ends before the integer does.
pub open spec fn varint_decoding(s: Seq<u8>) -> Result<(i32, nat), DataError> {
    match varint_end(s, 0) {
        Ok(n) => Ok((varint_value(varint_sum(s, n)), n)),
        Err(e) => Err(e),
    }
}

/// Encodes `value` in one to five bytes.
pub fn encode_varint(value: i32) -> (out: Vec<u8>)
    ensures
        out@ == varint_encoding(value),
        1 <= out@.len() <= 5,
{
    let start: u32 = #[verifier::truncate] (value as u32);
    let mut bits: u32 = start;
    let mut out: Vec<u8> = Vec::new();
    loop
        invariant_except_break
            out@.len() < varint_width(start),
            bits as int == start as int / group_weight(out@.len() as int),
        invariant
            forall|i: int| 0 <= i < out@.len() ==> out@[i] == varint_byte(start, i),
        ensures
            out@.len() == varint_width(start),
            forall|i: int| 0 <= i < out@.len() ==> out@[i] == varint_byte(start, i),
        decreases varint_width(start) - out@.len(),
    {
        let mut byte: u8 = (bits % 128) as u8;
        bits = bits / 128;
        if bits != 0 {
            byte = byte + 128;
        }
        out.push(byte);
        if bits == 0 {
            break;
        }
    }
    assert(out@ =~= varint_groups(start));
    out
}

/// Decodes the variable-length integer at the start of `bytes` and says how many
/// bytes it took.
pub fn decode_varint(bytes: &[u8]) -> (r: Result<(i32, usize), DataError>)
    ensures
        match varint_decoding(bytes@) {
            Ok((value, n)) => r == Ok::<(i32, usize), DataError>((value, n as usize)) && 1 <= n
                <= 5 && n <= bytes@.len(),
            Err(e) => r == Err::<(i32, usize), DataError>(e),
        },
{
    let mut sum: u64 = 0;
    let mut weight: u64 = 1;
    let mut i: usize = 0;
    proof {
        reveal_with_fuel(varint_end, 6);
    }
    while i < 5
        invariant
            i <= 5,
            weight as int == group_weight(i as int) * (if i == 5 { 0x80int } else { 1int }),
            sum as int == varint_sum(bytes@, i as nat),
            sum < weight,
            varint_end(bytes@, 0) == varint_end(bytes@, i as nat),
        decreases 5 - i,
    {
        if i >= bytes.len() {
            return Err(DataError::ReadError);
        }
        let byte: u8 = bytes[i];
        let group: u64 = (byte % 128) as u64;
        assert(group * weight <= 127 * weight) by (nonlinear_arith)
            requires
                group <= 127,
                weight >= 0,
        ;
        sum = sum + group * weight;
        if byte < 128 {
            let low: u32 = (sum % 0x1_0000_0000) as u32;
            return Ok((#[verifier::truncate] (low as i32), i + 1));
        }
        weight = weight * 128;
        i = i + 1;
    }
    Err(DataError::VarIntIsSoBig)
}

/// A variable-length integer that decodes took one to five bytes, all of them
/// there.
pub proof fn lemma_varint_decoding_bounds(s: Seq<u8>)
    ensures
        varint_decoding(s) matches Ok((_, n)) ==> 1 <= n <= 5 && n <= s.len(),
{
    reveal_with_fuel(varint_end, 6);
}

/// What a variable-length integer decodes to does not depend on the bytes
/// behind it: once it decodes, or is found too large, more bytes change nothing.
pub proof fn lemma_varint_decoding_stable(s: Seq<u8>, more: Seq<u8>)
    ensures
        varint_decoding(s) is Ok ==> varint_decoding(s + more) == varint_decoding(s),
        varint_decoding(s) == Err::<(i32, nat), DataError>(DataError::VarIntIsSoBig)
            ==> varint_decoding(s + more) == varint_decoding(s),
        varint_decoding(s) == Err::<(i32, nat), DataError>(DataError::ReadError) ==> s.len() < 5,
{
    reveal_with_fuel(varint_end, 6);
    assert forall|i: int| 0 <= i < s.len() implies (s + more)[i] == s[i] by {}
}

/// The groups of a 32-bit pattern, each at its weight, add up to the pattern.
proof fn lemma_groups_sum(bits: u32)
    ensures
        (bits as int) % 0x80 + ((bits as int / 0x80) % 0x80) * 0x80 + ((bits as int / 0x4000)
            % 0x80) * 0x4000 + ((bits as int / 0x20_0000) % 0x80) * 0x20_0000 + ((bits as int
            / 0x1000_0000) % 0x80) * 0x1000_0000 == bits,
        bits < 0x80 ==> bits as int / 0x80 == 0,
        bits < 0x4000 ==> bits as int / 0x4000 == 0,
        bits < 0x20_0000 ==> bits as int / 0x20_0000 == 0,
        bits < 0x1000_0000 ==> bits as int / 0x1000_0000 == 0,
        bits >= 0x80 ==> bits as int / 0x80 > 0,
{
    let b = bits as int;
    let q1 = b / 0x80;
    let q2 = q1 / 0x80;
    let q3 = q2 / 0x80;
    let q4 = q3 / 0x80;
    assert(b / 0x4000 == q2);
    assert(b / 0x20_0000 == q3);
    assert(b / 0x1000_0000 == q4);
    assert(q4 < 0x80);
}

/// Every signed 32-bit value survives encoding and decoding, whatever bytes
/// follow its encoding; the encoding has one to five bytes, and zero is the
/// single byte `0x00`.
#[verifier::rlimit(40)]
pub proof fn lemma_varint_roundtrip(value: i32, rest: Seq<u8>)
    ensures
        varint_decoding(varint_encoding(value) + rest) == Ok::<(i32, nat), DataError>(
            (value, varint_encoding(value).len()),
        ),
        1 <= varint_encoding(value).len() <= 5,
        varint_encoding(0i32) == seq![0u8],
{
    let bits: u32 = value as u32;
    let enc = varint_groups(bits);
    let s = enc + rest;
    let w = varint_width(bits);
    lemma_groups_sum(bits);
    assert forall|i: int| 0 <= i < w implies s[i] == varint_byte(bits, i) && s[i] % 0x80 == (
    bits as int / group_weight(i)) % 0x80 && (s[i] < 0x80 <==> i + 1 == w) by {
        assert(s[i] == enc[i]);
    }
    assert(varint_end(s, 0) == Ok::<nat, DataError>(w)) by {
        reveal_with_fuel(varint_end, 6);
    }
    assert(varint_sum(s, w) == bits as int);
    assert(((value as u32) as i32) == value) by (bit_vector);
    assert(varint_encoding(0i32) =~= seq![0u8]);
}

} // verus!
