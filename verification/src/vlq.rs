//! The integer codec: a signed 32-bit value is zig-zag mapped to an unsigned
//! value and emitted as 5-bit groups, least significant first, each group
//! carried by one symbol of a URL-safe 64-symbol alphabet.  Bit 5 (value 32)
//! of a group is the continuation bit: it is set on every group except the
//! last, which makes a stream of concatenated tokens self-delimiting.

use vstd::prelude::*;
use crate::error::CodecError;

verus! {

/// True of the bytes that belong to the 64-symbol alphabet:
/// `A`-`Z`, `a`-`z`, `0`-`9`, `-` and `_`.
pub open spec fn is_symbol(b: u8) -> bool {
    (65 <= b <= 90) || (97 <= b <= 122) || (48 <= b <= 57) || b == 45 || b == 95
}

/// The digit denoted by an alphabet byte (0 for a byte outside the alphabet).
pub open spec fn symbol_value(b: u8) -> nat {
    if 65 <= b <= 90 {
        (b - 65) as nat
    } else if 97 <= b <= 122 {
        (b - 97 + 26) as nat
    } else if 48 <= b <= 57 {
        (b - 48 + 52) as nat
    } else if b == 45 {
        62
    } else if b == 95 {
        63
    } else {
        0
    }
}

/// The alphabet byte that carries a digit below 64.
pub open spec fn symbol_of(d: nat) -> u8
    recommends
        d < 64,
{
    if d < 26 {
        (65 + d) as u8
    } else if d < 52 {
        (97 + d - 26) as u8
    } else if d < 62 {
        (48 + d - 52) as u8
    } else if d == 62 {
        45
    } else {
        95
    }
}

/// The zig-zag map: small magnitudes of either sign become small unsigned
/// values.  Injective on the supported range, with odd results standing for
/// negative inputs.
pub open spec fn zigzag(x: int) -> nat {
    if x >= 0 {
        (2 * x) as nat
    } else {
        (2 * -x + 1) as nat
    }
}

/// The inverse of the zig-zag map: an odd low bit means negative.
pub open spec fn unzigzag(z: nat) -> int {
    if z % 2 == 1 {
        -((z / 2) as int)
    } else {
        (z / 2) as int
    }
}

/// The symbols that encode the zig-zagged value `z`: base-32 digits, least
/// significant first, with the continuation bit set on all but the last.
pub open spec fn encode_groups(z: nat) -> Seq<u8>
    decreases z,
{
    if z < 32 {
        seq![symbol_of(z)]
    } else {
        seq![symbol_of((z % 32 + 32) as nat)] + encode_groups(z / 32)
    }
}

/// The token that encodes the signed value `x`.
pub open spec fn encode_vlq(x: int) -> Seq<u8> {
    encode_groups(zigzag(x))
}

/// 32 to the power `i`: the weight of the group at index `i`.
pub open spec fn pow32(i: nat) -> nat
    decreases i,
{
    if i == 0 {
        1
    } else {
        32 * pow32((i - 1) as nat)
    }
}

/// One token decoded from `s` starting at `pos`, after `i` groups have
/// already been accumulated into `acc`.  At most 7 groups are accepted
/// (they cover the full 32-bit zig-zagged range), and the accumulated value
/// must fit 32 bits; anything longer or larger is a malformed token.
pub open spec fn decode_groups(s: Seq<u8>, pos: int, i: nat, acc: nat) -> Result<
    (nat, int),
    CodecError,
>
    decreases 7 - i,
{
    if i >= 7 {
        Err(CodecError::InvalidDigit)
    } else if pos < 0 || pos >= s.len() {
        Err(CodecError::EndOfStream)
    } else if !is_symbol(s[pos]) {
        Err(CodecError::InvalidDigit)
    } else {
        let d = symbol_value(s[pos]);
        let acc2 = acc + (d % 32) * pow32(i);
        if d < 32 {
            if acc2 > 0xffff_ffff {
                Err(CodecError::InvalidDigit)
            } else {
                Ok((acc2, pos + 1))
            }
        } else {
            decode_groups(s, pos + 1, i + 1, acc2)
        }
    }
}

/// One signed value decoded from `s` starting at `pos`, with the position
/// just past its last symbol.
pub open spec fn decode_vlq(s: Seq<u8>, pos: int) -> Result<(int, int), CodecError> {
    match decode_groups(s, pos, 0, 0) {
        Ok((z, end)) => Ok((unzigzag(z), end)),
        Err(e) => Err(e),
    }
}

/// A successful decode consumes at least one symbol, stays inside the
/// stream, and yields a value of the supported range.
pub proof fn lemma_decode_groups_bounds(s: Seq<u8>, pos: int, i: nat, acc: nat)
    ensures
        decode_groups(s, pos, i, acc) matches Ok((z, end)) ==> {
            &&& pos < end <= s.len()
            &&& acc <= z <= 0xffff_ffff
        },
    decreases 7 - i,
{
    if i < 7 && 0 <= pos < s.len() && is_symbol(s[pos]) {
        let d = symbol_value(s[pos]);
        if d >= 32 {
            lemma_decode_groups_bounds(s, pos + 1, i + 1, acc + (d % 32) * pow32(i));
        }
    }
}

/// A successful decode yields a value strictly above `i32::MIN`.
pub proof fn lemma_decode_vlq_bounds(s: Seq<u8>, pos: int)
    ensures
        decode_vlq(s, pos) matches Ok((v, end)) ==> {
            &&& pos < end <= s.len()
            &&& -0x8000_0000 < v <= 0x7fff_ffff
        },
{
    lemma_decode_groups_bounds(s, pos, 0, 0);
}

/// The values decoded from `s` starting at `pos`, one token after another,
/// together with the terminal status: `None` when the stream ends exactly at
/// a token boundary (normal termination), `Some(e)` when a token fails to
/// decode.  The values before the failing token are still listed.
pub open spec fn decode_run(s: Seq<u8>, pos: int) -> (Seq<int>, Option<CodecError>)
    decreases s.len() - pos,
{
    if pos < 0 || pos >= s.len() {
        (Seq::empty(), None)
    } else {
        match decode_vlq(s, pos) {
            Err(e) => (Seq::empty(), Some(e)),
            Ok((v, end)) => if pos < end <= s.len() {
                // always the case for a successful decode
                // (`lemma_decode_vlq_bounds`); the test satisfies the
                // termination checker
                let (rest, status) = decode_run(s, end);
                (seq![v] + rest, status)
            } else {
                (Seq::empty(), Some(CodecError::InvalidDigit))
            },
        }
    }
}

/// The whole stream decoded as a sequence of values: the token boundaries
/// are given by the continuation bits alone, and a stream that does not end
/// exactly at a boundary is an error.
pub open spec fn decode_seq(s: Seq<u8>) -> Result<Seq<int>, CodecError> {
    match decode_run(s, 0) {
        (values, None) => Ok(values),
        (_, Some(e)) => Err(e),
    }
}

/// Whether a byte belongs to the 64-symbol alphabet.
pub fn is_base64_symbol(byte: u8) -> (r: bool)
    ensures
        r == is_symbol(byte),
{
    (65 <= byte && byte <= 90) || (97 <= byte && byte <= 122) || (48 <= byte && byte <= 57)
        || byte == 45 || byte == 95
}

/// The digit denoted by an alphabet byte; bytes outside the alphabet map
/// to 0.
pub fn base64_lut(byte: u8) -> (r: u8)
    ensures
        r as nat == symbol_value(byte),
        r < 64,
{
    if 65 <= byte && byte <= 90 {
        byte - 65
    } else if 97 <= byte && byte <= 122 {
        (byte - 97) + 26
    } else if 48 <= byte && byte <= 57 {
        (byte - 48) + 52
    } else if byte == 45 {
        62
    } else if byte == 95 {
        63
    } else {
        0
    }
}

/// The alphabet byte that carries a digit below 64.
pub fn base64_symbol(digit: u8) -> (r: u8)
    requires
        digit < 64,
    ensures
        r == symbol_of(digit as nat),
{
    if digit < 26 {
        65 + digit
    } else if digit < 52 {
        97 + (digit - 26)
    } else if digit < 62 {
        48 + (digit - 52)
    } else if digit == 62 {
        45
    } else {
        95
    }
}

/// Decodes one token from `input` starting at `pos`: symbols are read and
/// their 5-bit groups accumulated until a symbol without the continuation
/// bit ends the token.  Fails with `EndOfStream` if the stream ends before
/// a terminating symbol, and with `InvalidDigit` on a byte outside the
/// alphabet or on digits that do not denote a value of the supported
/// 32-bit range.  On success the returned position is just past the token.
pub fn vlq_decode(input: &[u8], pos: usize) -> (r: Result<(i32, usize), CodecError>)
    ensures
        match r {
            Ok((value, end)) => {
                &&& decode_vlq(input@, pos as int) == Ok::<(int, int), CodecError>(
                    (value as int, end as int),
                )
                &&& pos < end <= input@.len()
                &&& value != i32::MIN
            },
            Err(e) => decode_vlq(input@, pos as int) == Err::<(int, int), CodecError>(e),
        },
{
    let ghost s = input@;
    let mut p: usize = pos;
    let mut i: usize = 0;
    let mut acc: u64 = 0;
    let mut mult: u64 = 1;
    loop
        invariant
            pos <= p,
            i <= 7,
            p == pos + i,
            p <= s.len() || p == pos,
            s == input@,
            mult == pow32(i as nat),
            acc < pow32(i as nat),
            decode_groups(s, pos as int, 0, 0) == decode_groups(s, p as int, i as nat, acc as nat),
        decreases 7 - i,
    {
        proof {
            lemma_pow32_bounds(i as nat);
        }
        if i >= 7 {
            return Err(CodecError::InvalidDigit);
        }
        if p >= input.len() {
            return Err(CodecError::EndOfStream);
        }
        let b = input[p];
        if !is_base64_symbol(b) {
            return Err(CodecError::InvalidDigit);
        }
        let d = base64_lut(b);
        proof {
            lemma_pow32_bounds((i + 1) as nat);
            assert(acc + ((d % 32) as u64) * mult < pow32((i + 1) as nat)) by (nonlinear_arith)
                requires
                    acc < pow32(i as nat),
                    mult == pow32(i as nat),
                    d % 32 < 32,
                    pow32((i + 1) as nat) == 32 * pow32(i as nat),
            ;
        }
        acc = acc + ((d % 32) as u64) * mult;
        if d < 32 {
            // final group of the token
            if acc > 0xffff_ffff {
                return Err(CodecError::InvalidDigit);
            }
            let z: u32 = acc as u32;
            let value: i32 = if z % 2 == 1 {
                -((z / 2) as i32)
            } else {
                (z / 2) as i32
            };
            proof {
                assert(value as int == unzigzag(z as nat));
            }
            return Ok((value, p + 1));
        }
        proof {
            assert(mult * 32 == pow32((i + 1) as nat));
        }
        mult = mult * 32;
        i = i + 1;
        p = p + 1;
    }
}

/// `pow32` is positive.
proof fn lemma_pow32_pos(i: nat)
    ensures
        pow32(i) >= 1,
    decreases i,
{
    if i > 0 {
        lemma_pow32_pos((i - 1) as nat);
    }
}

/// `pow32` is monotonic.
proof fn lemma_pow32_mono(i: nat, j: nat)
    requires
        i <= j,
    ensures
        pow32(i) <= pow32(j),
    decreases j,
{
    if i < j {
        lemma_pow32_mono(i, (j - 1) as nat);
        lemma_pow32_pos((j - 1) as nat);
    }
}

/// `pow32` stays at or below `32^7` for the first seven indices.
proof fn lemma_pow32_bounds(i: nat)
    ensures
        pow32(i) >= 1,
        i <= 7 ==> pow32(i) <= 0x8_0000_0000,
        pow32(7) == 0x8_0000_0000,
{
    lemma_pow32_pos(i);
    if i <= 7 {
        lemma_pow32_mono(i, 7);
    }
    assert(pow32(0) == 1);
    assert(pow32(1) == 32);
    assert(pow32(2) == 0x400);
    assert(pow32(3) == 0x8000);
    assert(pow32(4) == 0x10_0000);
    assert(pow32(5) == 0x200_0000);
    assert(pow32(6) == 0x4000_0000);
    assert(pow32(7) == 0x8_0000_0000);
}

/// The view of a decoded value sequence.
pub open spec fn values_view(values: Seq<i32>) -> Seq<int> {
    values.map(|k: int, v: i32| v as int)
}

/// Decodes the whole of `input` as a sequence of back-to-back tokens.
/// Fails with `EndOfStream` if the stream ends in the middle of a token,
/// so a truncated trace is never silently misread.
pub fn vlq_decode_all(input: &[u8]) -> (r: Result<Vec<i32>, CodecError>)
    ensures
        match r {
            Ok(values) => {
                &&& decode_seq(input@) == Ok::<Seq<int>, CodecError>(values_view(values@))
                &&& forall|k: int| 0 <= k < values@.len() ==> #[trigger] values@[k] != i32::MIN
            },
            Err(e) => decode_seq(input@) == Err::<Seq<int>, CodecError>(e),
        },
{
    let ghost s = input@;
    let mut out: Vec<i32> = Vec::new();
    let mut pos: usize = 0;
    loop
        invariant
            pos <= s.len(),
            s == input@,
            decode_run(s, 0).0 == values_view(out@) + decode_run(s, pos as int).0,
            decode_run(s, 0).1 == decode_run(s, pos as int).1,
            forall|k: int| 0 <= k < out@.len() ==> #[trigger] out@[k] != i32::MIN,
        decreases s.len() - pos,
    {
        if pos >= input.len() {
            proof {
                assert(decode_run(s, pos as int).0 == Seq::<int>::empty());
                assert(decode_run(s, 0).0 =~= values_view(out@));
            }
            return Ok(out);
        }
        match vlq_decode(input, pos) {
            Err(e) => {
                return Err(e);
            },
            Ok((v, end)) => {
                proof {
                    let (rest, status) = decode_run(s, end as int);
                    assert(decode_run(s, pos as int) == (seq![v as int] + rest, status));
                    assert(values_view(out@) + (seq![v as int] + rest) =~= (values_view(out@)
                        + seq![v as int]) + rest);
                    assert(values_view(out@.push(v)) =~= values_view(out@) + seq![v as int]);
                }
                out.push(v);
                pos = end;
            },
        }
    }
}

/// Appends the base-32 groups of `z`, least significant first, with the
/// continuation bit set on all but the last.
fn push_groups(z: u32, writer: &mut Vec<u8>)
    ensures
        final(writer)@ == old(writer)@ + encode_groups(z as nat),
    decreases z,
{
    let digit: u8 = (z % 32) as u8;
    let rest: u32 = z / 32;
    if rest == 0 {
        writer.push(base64_symbol(digit));
        proof {
            assert(writer@ =~= old(writer)@ + encode_groups(z as nat));
        }
    } else {
        writer.push(base64_symbol(digit + 32));
        let ghost mid = writer@;
        push_groups(rest, writer);
        proof {
            assert(mid == old(writer)@.push(symbol_of((z as nat % 32 + 32) as nat)));
            assert(writer@ =~= old(writer)@ + encode_groups(z as nat));
        }
    }
}

/// Appends the token that encodes `value` to `writer`.  The supported range
/// excludes `i32::MIN`, whose zig-zagged form does not fit 32 bits.
pub fn vlq_encode(value: i32, writer: &mut Vec<u8>)
    requires
        value != i32::MIN,
    ensures
        final(writer)@ == old(writer)@ + encode_vlq(value as int),
{
    let z: u32 = if value >= 0 {
        (value as u32) * 2
    } else {
        ((-value) as u32) * 2 + 1
    };
    proof {
        assert(z as nat == zigzag(value as int));
    }
    push_groups(z, writer);
}

/// A digit below 64 survives the trip through its alphabet byte.
proof fn lemma_symbol_round_trip(d: nat)
    requires
        d < 64,
    ensures
        is_symbol(symbol_of(d)),
        symbol_value(symbol_of(d)) == d,
{
}

/// The shape of an encoded token: at least one symbol, every symbol in the
/// alphabet, the continuation bit set on every symbol but the last.
proof fn lemma_encode_groups_facts(z: nat)
    ensures
        encode_groups(z).len() >= 1,
        forall|k: int|
            0 <= k < encode_groups(z).len() ==> is_symbol(#[trigger] encode_groups(z)[k]),
        forall|k: int|
            0 <= k < encode_groups(z).len() - 1 ==> symbol_value(
                #[trigger] encode_groups(z)[k],
            ) >= 32,
        symbol_value(encode_groups(z)[encode_groups(z).len() - 1]) < 32,
        (encode_groups(z).len() == 1 <==> z < 32),
    decreases z,
{
    if z < 32 {
        lemma_symbol_round_trip(z);
    } else {
        lemma_symbol_round_trip((z % 32 + 32) as nat);
        lemma_encode_groups_facts(z / 32);
        let e = encode_groups(z);
        let tail = encode_groups(z / 32);
        assert(forall|k: int| 1 <= k < e.len() ==> #[trigger] e[k] == tail[k - 1]);
    }
}

/// A zig-zagged value below `32^k` needs at most `k` symbols.
proof fn lemma_encode_groups_len(z: nat, k: nat)
    requires
        k >= 1,
        z < pow32(k),
    ensures
        encode_groups(z).len() <= k,
    decreases z,
{
    if z >= 32 {
        assert(pow32(k) == 32 * pow32((k - 1) as nat));
        assert(z / 32 < pow32((k - 1) as nat));
        lemma_encode_groups_len(z / 32, (k - 1) as nat);
    }
}

/// The zig-zag map of a supported value fits 32 bits and is undone exactly
/// by `unzigzag`.
proof fn lemma_zigzag_round_trip(x: int)
    requires
        -0x8000_0000 < x <= 0x7fff_ffff,
    ensures
        zigzag(x) <= 0xffff_ffff,
        unzigzag(zigzag(x)) == x,
{
}

/// Decoding at the start of an encoded group sequence accumulates exactly
/// the encoded value, weighted by the group index reached so far.
proof fn lemma_decode_of_encoded(z: nat, s: Seq<u8>, pos: int, i: nat, acc: nat)
    requires
        0 <= pos,
        pos + encode_groups(z).len() <= s.len(),
        s.subrange(pos, pos + encode_groups(z).len() as int) == encode_groups(z),
        i + encode_groups(z).len() <= 7,
        acc + z * pow32(i) <= 0xffff_ffff,
    ensures
        decode_groups(s, pos, i, acc) == Ok::<(nat, int), CodecError>(
            ((acc + z * pow32(i)) as nat, pos + encode_groups(z).len()),
        ),
    decreases z,
{
    let e = encode_groups(z);
    lemma_encode_groups_facts(z);
    lemma_pow32_pos(i);
    assert(s[pos] == s.subrange(pos, pos + e.len() as int)[0]);
    if z < 32 {
        lemma_symbol_round_trip(z);
        assert(z % 32 == z);
    } else {
        lemma_symbol_round_trip((z % 32 + 32) as nat);
        let d = symbol_value(s[pos]);
        assert(d == z % 32 + 32);
        let acc2 = acc + (d % 32) * pow32(i);
        let tail = encode_groups(z / 32);
        assert(e == seq![symbol_of((z % 32 + 32) as nat)] + tail);
        assert(forall|k: int| 1 <= k < e.len() ==> #[trigger] e[k] == tail[k - 1]);
        assert(s.subrange(pos + 1, pos + 1 + tail.len() as int) =~= tail) by {
            assert(forall|k: int|
                0 <= k < tail.len() ==> #[trigger] s.subrange(pos + 1, pos + 1 + tail.len() as int)[k]
                    == s.subrange(pos, pos + e.len() as int)[k + 1]);
        };
        assert(z == 32 * (z / 32) + z % 32);
        assert(acc2 + (z / 32) * pow32(i + 1) == acc + z * pow32(i)) by (nonlinear_arith)
            requires
                pow32(i + 1) == 32 * pow32(i),
                z == 32 * (z / 32) + (z % 32),
                acc2 == acc + ((z % 32 + 32) % 32) * pow32(i),
        ;
        lemma_decode_of_encoded(z / 32, s, pos + 1, i + 1, acc2);
    }
}

/// Decoding a stretch of symbols that all carry the continuation bit, with
/// the stream ending before a terminating symbol, fails with `EndOfStream`.
proof fn lemma_decode_continuation_eos(s: Seq<u8>, pos: int, i: nat, acc: nat)
    requires
        0 <= pos <= s.len(),
        forall|k: int|
            pos <= k < s.len() ==> is_symbol(#[trigger] s[k]) && symbol_value(s[k]) >= 32,
        i + (s.len() - pos) <= 6,
    ensures
        decode_groups(s, pos, i, acc) == Err::<(nat, int), CodecError>(CodecError::EndOfStream),
    decreases s.len() - pos,
{
    if pos < s.len() {
        let d = symbol_value(s[pos]);
        lemma_decode_continuation_eos(s, pos + 1, i + 1, acc + (d % 32) * pow32(i));
    }
}

/// Decoding a stretch of symbols that all carry the continuation bit, with
/// the stream ending before a terminating symbol, never succeeds.
proof fn lemma_decode_continuation_err(s: Seq<u8>, pos: int, i: nat, acc: nat)
    requires
        0 <= pos <= s.len(),
        forall|k: int|
            pos <= k < s.len() ==> is_symbol(#[trigger] s[k]) && symbol_value(s[k]) >= 32,
    ensures
        decode_groups(s, pos, i, acc) is Err,
    decreases s.len() - pos,
{
    if i < 7 && pos < s.len() {
        let d = symbol_value(s[pos]);
        lemma_decode_continuation_err(s, pos + 1, i + 1, acc + (d % 32) * pow32(i));
    }
}

/// A stream cut mid-token never decodes to a value: while every remaining
/// symbol carries the continuation bit, decoding fails — with
/// `EndOfStream` when at most six such symbols remain, which covers every
/// truncation of a genuine token, and with `InvalidDigit` past the
/// seven-symbol cap; never with a partially accumulated value.
pub proof fn vlq_truncated_stream_fails(s: Seq<u8>, pos: int)
    requires
        0 <= pos <= s.len(),
        forall|k: int|
            pos <= k < s.len() ==> is_symbol(#[trigger] s[k]) && symbol_value(s[k]) >= 32,
    ensures
        decode_vlq(s, pos) is Err,
        s.len() - pos <= 6 ==> decode_vlq(s, pos) == Err::<(int, int), CodecError>(
            CodecError::EndOfStream,
        ),
{
    lemma_decode_continuation_err(s, pos, 0, 0);
    if s.len() - pos <= 6 {
        lemma_decode_continuation_eos(s, pos, 0, 0);
    }
}

/// Anywhere an encoded token stands whole in a stream, decoding from its
/// first symbol yields the encoded value and stops just past its last.
pub proof fn lemma_decode_encoded_at(x: int, s: Seq<u8>, pos: int)
    requires
        -0x8000_0000 < x <= 0x7fff_ffff,
        0 <= pos,
        pos + encode_vlq(x).len() <= s.len(),
        s.subrange(pos, pos + encode_vlq(x).len() as int) == encode_vlq(x),
    ensures
        decode_vlq(s, pos) == Ok::<(int, int), CodecError>((x, pos + encode_vlq(x).len())),
{
    let z = zigzag(x);
    lemma_zigzag_round_trip(x);
    lemma_pow32_bounds(7);
    assert(z < pow32(7));
    lemma_encode_groups_len(z, 7);
    assert(pow32(0) == 1);
    assert(z * pow32(0) == z) by (nonlinear_arith)
        requires
            pow32(0) == 1,
    ;
    lemma_decode_of_encoded(z, s, pos, 0, 0);
}

/// Round trip: decoding an encoded value yields that value, consuming the
/// whole token.
pub proof fn vlq_round_trip(x: int)
    requires
        -0x8000_0000 < x <= 0x7fff_ffff,
    ensures
        decode_vlq(encode_vlq(x), 0) == Ok::<(int, int), CodecError>(
            (x, encode_vlq(x).len() as int),
        ),
{
    let e = encode_vlq(x);
    assert(e.subrange(0, e.len() as int) =~= e);
    lemma_decode_encoded_at(x, e, 0);
}

/// Tokens are self-delimiting: two encoded values laid back to back decode
/// to the first value and then the second, with no separator.
pub proof fn vlq_self_delimiting(x: int, y: int)
    requires
        -0x8000_0000 < x <= 0x7fff_ffff,
        -0x8000_0000 < y <= 0x7fff_ffff,
    ensures
        ({
            let s = encode_vlq(x) + encode_vlq(y);
            let n1 = encode_vlq(x).len() as int;
            &&& decode_vlq(s, 0) == Ok::<(int, int), CodecError>((x, n1))
            &&& decode_vlq(s, n1) == Ok::<(int, int), CodecError>((y, s.len() as int))
        }),
{
    let ex = encode_vlq(x);
    let ey = encode_vlq(y);
    let s = ex + ey;
    assert(s.subrange(0, ex.len() as int) =~= ex);
    lemma_decode_encoded_at(x, s, 0);
    assert(s.subrange(ex.len() as int, (ex.len() + ey.len()) as int) =~= ey);
    lemma_decode_encoded_at(y, s, ex.len() as int);
}

/// Alphabet closure: every byte of an encoded token is one of the 64
/// symbols; no padding byte is ever emitted.
pub proof fn vlq_alphabet_closure(x: int)
    ensures
        forall|k: int|
            0 <= k < encode_vlq(x).len() ==> is_symbol(#[trigger] encode_vlq(x)[k]),
{
    lemma_encode_groups_facts(zigzag(x));
}

/// Truncation detection: any strict prefix of an encoded token fails to
/// decode with `EndOfStream`, never silently yielding a wrong value.
pub proof fn vlq_truncation_detected(x: int, n: int)
    requires
        -0x8000_0000 < x <= 0x7fff_ffff,
        0 <= n < encode_vlq(x).len(),
    ensures
        decode_vlq(encode_vlq(x).take(n), 0) == Err::<(int, int), CodecError>(
            CodecError::EndOfStream,
        ),
{
    let e = encode_vlq(x);
    let t = e.take(n);
    let z = zigzag(x);
    lemma_encode_groups_facts(z);
    lemma_zigzag_round_trip(x);
    lemma_pow32_bounds(7);
    lemma_encode_groups_len(z, 7);
    assert(forall|k: int| 0 <= k < t.len() ==> #[trigger] t[k] == e[k]);
    lemma_decode_continuation_eos(t, 0, 0, 0);
}

/// Zig-zag economy: a magnitude of at most 15 takes exactly one symbol, and
/// magnitude 16 is the first to need two, for either sign.
pub proof fn vlq_single_symbol(x: int)
    requires
        -0x8000_0000 < x <= 0x7fff_ffff,
    ensures
        encode_vlq(x).len() == 1 <==> -15 <= x <= 15,
        x == 16 || x == -16 ==> encode_vlq(x).len() == 2,
{
    lemma_encode_groups_facts(zigzag(x));
    if x == 16 || x == -16 {
        assert(encode_groups(1) == seq![symbol_of(1)]);
        assert(encode_vlq(x).len() == 2);
    }
}

} // verus!
