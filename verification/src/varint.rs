//! VarInt/VarLong encoding as used throughout the Minecraft protocol:
//! 7 data bits plus a continuation bit per byte, least significant group
//! first.

use vstd::prelude::*;

use crate::error::ProtocolError;

verus! {

/// 128 to the power `n`.
pub open spec fn pow128(n: nat) -> nat
    decreases n,
{
    if n == 0 {
        1
    } else {
        128 * pow128((n - 1) as nat)
    }
}

/// The continuation-bit encoding of the unsigned value `v`: 7 bits per
/// byte, least significant group first, the high bit set on every byte
/// but the last.
pub open spec fn encode_var(v: nat) -> Seq<u8>
    decreases v,
{
    if v < 128 {
        seq![v as u8]
    } else {
        seq![((v % 128) + 128) as u8] + encode_var(v / 128)
    }
}

/// Bytes `write_varint` appends for `value` (its two's complement bits).
pub open spec fn varint_bytes(value: i32) -> Seq<u8> {
    encode_var((value as u32) as nat)
}

/// Bytes `write_varlong` appends for `value` (its two's complement bits).
pub open spec fn varlong_bytes(value: i64) -> Seq<u8> {
    encode_var((value as u64) as nat)
}

/// The 7-bit groups of `bytes[pos..pos + n]`, least significant first.
pub open spec fn var_sum(bytes: Seq<u8>, pos: int, n: nat) -> nat
    decreases n,
{
    if n == 0 {
        0
    } else {
        var_sum(bytes, pos, (n - 1) as nat) + ((bytes[pos + n - 1] % 128) as nat) * pow128(
            (n - 1) as nat,
        )
    }
}

/// Outcome of scanning a variable-length integer that starts at `pos`.
pub enum VarScan {
    /// The `n`-th byte ended it (its high bit is clear).
    Done(nat),
    /// The input ended after `n` bytes, all with the high bit set.
    Eof(nat),
    /// `n` bytes (the maximum) were read, all with the high bit set.
    TooLong(nat),
}

/// Scans bytes from `pos + count` on, at most `max` bytes in all.
pub open spec fn var_scan(bytes: Seq<u8>, pos: int, count: nat, max: nat) -> VarScan
    decreases max - count,
{
    if pos + count >= bytes.len() {
        VarScan::Eof(count)
    } else if bytes[pos + count] < 128 {
        VarScan::Done(count + 1)
    } else if count + 1 >= max {
        VarScan::TooLong(count + 1)
    } else {
        var_scan(bytes, pos, count + 1, max)
    }
}

/// What `read_varint` returns for the bytes from `pos` on, and how many
/// bytes it consumes doing so.
pub open spec fn varint_decode(bytes: Seq<u8>, pos: int) -> (Result<i32, ProtocolError>, nat) {
    match var_scan(bytes, pos, 0, 5) {
        VarScan::Done(n) => (Ok(((var_sum(bytes, pos, n) % 0x1_0000_0000) as u32) as i32), n),
        VarScan::Eof(n) => (Err(ProtocolError::UnexpectedEof), n),
        VarScan::TooLong(n) => (Err(ProtocolError::VarIntTooLarge), n),
    }
}

/// What `read_varlong` returns for the bytes from `pos` on, and how many
/// bytes it consumes doing so.
pub open spec fn varlong_decode(bytes: Seq<u8>, pos: int) -> (Result<i64, ProtocolError>, nat) {
    match var_scan(bytes, pos, 0, 10) {
        VarScan::Done(n) => (
            Ok(((var_sum(bytes, pos, n) % 0x1_0000_0000_0000_0000) as u64) as i64),
            n,
        ),
        VarScan::Eof(n) => (Err(ProtocolError::UnexpectedEof), n),
        VarScan::TooLong(n) => (Err(ProtocolError::VarLongTooLarge), n),
    }
}

proof fn lemma_pow128_pos(n: nat)
    ensures
        pow128(n) >= 1,
    decreases n,
{
    if n > 0 {
        lemma_pow128_pos((n - 1) as nat);
    }
}

proof fn lemma_var_sum_bound(bytes: Seq<u8>, pos: int, n: nat)
    ensures
        var_sum(bytes, pos, n) < pow128(n),
    decreases n,
{
    if n > 0 {
        lemma_var_sum_bound(bytes, pos, (n - 1) as nat);
        let d = (bytes[pos + n - 1] % 128) as nat;
        let p = pow128((n - 1) as nat);
        let s = var_sum(bytes, pos, (n - 1) as nat);
        assert(s + d * p < 128 * p) by (nonlinear_arith)
            requires
                s < p,
                d < 128,
        ;
    }
}

proof fn lemma_var_sum_prefix(a: Seq<u8>, b: Seq<u8>, pa: int, pb: int, n: nat)
    requires
        0 <= pa,
        0 <= pb,
        pa + n <= a.len(),
        pb + n <= b.len(),
        a.subrange(pa, pa + n) == b.subrange(pb, pb + n),
    ensures
        var_sum(a, pa, n) == var_sum(b, pb, n),
    decreases n,
{
    if n > 0 {
        assert(a.subrange(pa, pa + n - 1) =~= a.subrange(pa, pa + n).subrange(0, n - 1));
        assert(b.subrange(pb, pb + n - 1) =~= b.subrange(pb, pb + n).subrange(0, n - 1));
        lemma_var_sum_prefix(a, b, pa, pb, (n - 1) as nat);
        assert(a.subrange(pa, pa + n)[n - 1] == b.subrange(pb, pb + n)[n - 1]);
        assert(a.subrange(pa, pa + n)[n - 1] == a[pa + (n - 1)]);
        assert(b.subrange(pb, pb + n)[n - 1] == b[pb + (n - 1)]);
        let m = (n - 1) as nat;
        assert(var_sum(a, pa, n) == var_sum(a, pa, m) + ((a[pa + n - 1] % 128) as nat) * pow128(m));
        assert(var_sum(b, pb, n) == var_sum(b, pb, m) + ((b[pb + n - 1] % 128) as nat) * pow128(m));
    }
}

/// Decoding what `encode_var` produced gives back the value, and the scan
/// stops exactly at the last encoded byte.
proof fn lemma_encode_scan(v: nat, bytes: Seq<u8>, pos: int, count: nat, max: nat)
    requires
        0 <= pos,
        pos + count + encode_var(v).len() <= bytes.len(),
        bytes.subrange(pos + count, pos + count + encode_var(v).len()) == encode_var(v),
        count + encode_var(v).len() <= max,
    ensures
        var_scan(bytes, pos, count, max) == VarScan::Done(count + encode_var(v).len()),
    decreases v,
{
    let e = encode_var(v);
    assert(bytes[pos + count] == e[0]);
    if v >= 128 {
        let rest = encode_var(v / 128);
        assert(e == seq![((v % 128) + 128) as u8] + rest);
        assert(bytes.subrange(pos + count + 1, pos + count + 1 + rest.len()) =~= rest) by {
            assert forall|i: int| 0 <= i < rest.len() implies bytes[pos + count + 1 + i] == rest[i] by {
                assert(bytes.subrange(pos + count, pos + count + e.len())[1 + i] == e[1 + i]);
            }
        }
        lemma_encode_scan(v / 128, bytes, pos, count + 1, max);
    }
}

proof fn lemma_encode_sum(v: nat)
    ensures
        var_sum(encode_var(v), 0, encode_var(v).len()) == v,
        encode_var(v).len() >= 1,
    decreases v,
{
    let e = encode_var(v);
    if v >= 128 {
        let rest = encode_var(v / 128);
        lemma_encode_sum(v / 128);
        assert(e == seq![((v % 128) + 128) as u8] + rest);
        // var_sum over e splits into the first group plus 128 times the rest.
        lemma_var_sum_shift(e, rest.len());
        assert(e.subrange(1, 1 + rest.len() as int) =~= rest.subrange(0, rest.len() as int));
        lemma_var_sum_prefix(e, rest, 1, 0, rest.len());
        assert(v == (v % 128) + 128 * (v / 128));
        assert(e[0] == ((v % 128) + 128) as u8);
        assert((e[0] % 128) as nat == v % 128);
        assert(var_sum(e, 0, e.len()) == (v % 128) + 128 * var_sum(rest, 0, rest.len()));
    } else {
        assert(e[0] == v as u8);
        assert(pow128(0) == 1);
        assert(var_sum(e, 0, 1) == var_sum(e, 0, 0) + ((e[0] % 128) as nat) * pow128(0));
    }
}

/// Summing `n + 1` groups from 0 is the first group plus 128 times the
/// sum of the `n` groups after it.
proof fn lemma_var_sum_shift(bytes: Seq<u8>, n: nat)
    requires
        n + 1 <= bytes.len(),
    ensures
        var_sum(bytes, 0, n + 1) == (bytes[0] % 128) as nat + 128 * var_sum(bytes, 1, n),
    decreases n,
{
    if n == 0 {
        assert(pow128(0) == 1);
        assert(var_sum(bytes, 0, 1) == var_sum(bytes, 0, 0) + ((bytes[0] % 128) as nat) * pow128(0));
        assert(var_sum(bytes, 1, 0) == 0);
    } else {
        let m = (n - 1) as nat;
        lemma_var_sum_shift(bytes, m);
        let d = (bytes[n as int] % 128) as nat;
        let p = pow128(m);
        let b0 = (bytes[0] % 128) as nat;
        assert(var_sum(bytes, 0, n + 1) == var_sum(bytes, 0, n) + d * pow128(n));
        assert(var_sum(bytes, 0, n) == b0 + 128 * var_sum(bytes, 1, m));
        assert(bytes[1 + n - 1] == bytes[n as int]);
        assert(var_sum(bytes, 1, n) == var_sum(bytes, 1, m) + d * p);
        assert(pow128(n) == 128 * p);
        let r = var_sum(bytes, 1, m);
        assert(b0 + 128 * r + d * (128 * p) == b0 + 128 * (r + d * p)) by (nonlinear_arith);
        assert(d * pow128(n) == d * (128 * p));
        assert(var_sum(bytes, 0, n + 1) == b0 + 128 * r + d * (128 * p));
    }
}

proof fn lemma_encode_len(v: nat, k: nat)
    requires
        v < pow128(k),
        k >= 1,
    ensures
        encode_var(v).len() <= k,
    decreases v,
{
    if v >= 128 {
        assert(k >= 2) by {
            if k == 1 {
                assert(pow128(1) == 128 * pow128(0));
            }
        }
        let p = pow128((k - 1) as nat);
        assert(v / 128 < p) by {
            assert(pow128(k) == 128 * p);
            assert(v < 128 * p);
        }
        lemma_encode_len(v / 128, (k - 1) as nat);
    }
}

/// Reading back what `write_varint` wrote gives the same value, and
/// consumes exactly the bytes written: the VarInt round trip.
pub proof fn lemma_varint_round_trip(value: i32, bytes: Seq<u8>, pos: int)
    requires
        0 <= pos,
        pos + varint_bytes(value).len() <= bytes.len(),
        bytes.subrange(pos, pos + varint_bytes(value).len()) == varint_bytes(value),
    ensures
        varint_decode(bytes, pos) == (Ok::<i32, ProtocolError>(value), varint_bytes(value).len()),
{
    let u = (value as u32) as nat;
    let e = encode_var(u);
    assert(pow128(5) == 34359738368) by {
        reveal_with_fuel(pow128, 6);
    }
    lemma_encode_len(u, 5);
    lemma_encode_scan(u, bytes, pos, 0, 5);
    lemma_encode_sum(u);
    assert(e.subrange(0, e.len() as int) =~= e);
    lemma_var_sum_prefix(bytes, e, pos, 0, e.len());
    let w: u32 = value as u32;
    assert(u % 0x1_0000_0000 == u);
    assert((w as i32) == value) by (bit_vector)
        requires
            w == value as u32,
    ;
}

/// Reading back what `write_varlong` wrote gives the same value, and
/// consumes exactly the bytes written: the VarLong round trip.
pub proof fn lemma_varlong_round_trip(value: i64, bytes: Seq<u8>, pos: int)
    requires
        0 <= pos,
        pos + varlong_bytes(value).len() <= bytes.len(),
        bytes.subrange(pos, pos + varlong_bytes(value).len()) == varlong_bytes(value),
    ensures
        varlong_decode(bytes, pos) == (Ok::<i64, ProtocolError>(value), varlong_bytes(value).len()),
{
    let u = (value as u64) as nat;
    let e = encode_var(u);
    assert(pow128(10) == 1180591620717411303424) by {
        reveal_with_fuel(pow128, 11);
    }
    lemma_encode_len(u, 10);
    lemma_encode_scan(u, bytes, pos, 0, 10);
    lemma_encode_sum(u);
    assert(e.subrange(0, e.len() as int) =~= e);
    lemma_var_sum_prefix(bytes, e, pos, 0, e.len());
    let w: u64 = value as u64;
    assert(u % 0x1_0000_0000_0000_0000 == u);
    assert((w as i64) == value) by (bit_vector)
        requires
            w == value as u64,
    ;
}

fn write_var(buf: &mut Vec<u8>, value: u64)
    ensures
        final(buf)@ == old(buf)@ + encode_var(value as nat),
{
    let ghost start = old(buf)@;
    let mut v: u64 = value;
    loop
        invariant
            start == old(buf)@,
            start + encode_var(value as nat) == buf@ + encode_var(v as nat),
        decreases v,
    {
        let ghost prev = v;
        let byte: u8 = (v % 128) as u8;
        v = v / 128;
        let ghost before = buf@;
        if v == 0 {
            proof {
                assert(prev < 128);
                assert(byte == prev);
                assert(encode_var(prev as nat) == seq![byte]);
            }
            buf.push(byte);
            assert(before + seq![byte] =~= buf@);
            return;
        }
        proof {
            assert(prev >= 128);
            assert(encode_var(prev as nat) == seq![((prev % 128) + 128) as u8] + encode_var(
                (prev / 128) as nat,
            ));
        }
        buf.push(byte + 128);
        assert(before + encode_var(prev as nat) =~= buf@ + encode_var(v as nat));
    }
}

/// Appends the VarInt encoding of `value` (its two's complement bits,
/// so negative values always take 5 bytes).
pub fn write_varint(buf: &mut Vec<u8>, value: i32)
    ensures
        final(buf)@ == old(buf)@ + varint_bytes(value),
{
    write_var(buf, (value as u32) as u64);
}

/// Number of bytes `write_varint` uses for `value`.
pub fn varint_size(value: i32) -> (n: usize)
    ensures
        n == varint_bytes(value).len(),
{
    let mut size: usize = 0;
    let mut v: u32 = value as u32;
    proof {
        assert(pow128(0) == 1);
    }
    loop
        invariant
            size + encode_var(v as nat).len() == varint_bytes(value).len(),
            size <= 5,
            v as nat <= (value as u32) as nat / pow128(size as nat),
        decreases v,
    {
        proof {
            lemma_pow128_pos(size as nat);
            if v >= 128 {
                assert(encode_var(v as nat) == seq![((v % 128) + 128) as u8] + encode_var((v / 128) as nat));
            }
        }
        size = size + 1;
        let ghost old_v = v;
        v = v / 128;
        if v == 0 {
            return size;
        }
        proof {
            assert(pow128(size as nat) == 128 * pow128((size - 1) as nat));
            assert(v as nat <= (value as u32) as nat / pow128(size as nat)) by {
                let p = pow128((size - 1) as nat);
                let x = (value as u32) as nat;
                assert(old_v <= x / p);
                vstd::arithmetic::div_mod::lemma_div_denominator(x as int, p as int, 128);
                vstd::arithmetic::div_mod::lemma_div_is_ordered(old_v as int, (x / p) as int, 128);
                assert(p * 128 == 128 * p) by (nonlinear_arith);
            }
            assert(size <= 5) by {
                if size >= 5 {
                    assert(pow128(5) == 34359738368) by {
                        reveal_with_fuel(pow128, 6);
                    }
                    let x = (value as u32) as nat;
                    lemma_pow_mono(5, size as nat);
                    assert(x / pow128(size as nat) == 0) by {
                        vstd::arithmetic::div_mod::lemma_basic_div(x as int, pow128(size as nat) as int);
                    }
                }
            }
        }
    }
}

proof fn lemma_pow_mono(a: nat, b: nat)
    requires
        a <= b,
    ensures
        pow128(a) <= pow128(b),
    decreases b - a,
{
    if a < b {
        lemma_pow_mono(a, (b - 1) as nat);
        lemma_pow128_pos((b - 1) as nat);
    }
}

/// Appends the VarLong encoding of `value` (its two's complement bits,
/// so negative values always take 10 bytes).
pub fn write_varlong(buf: &mut Vec<u8>, value: i64)
    ensures
        final(buf)@ == old(buf)@ + varlong_bytes(value),
{
    write_var(buf, value as u64);
}

enum Scanned {
    Done(u128),
    Eof,
    TooLong,
}

/// Reads continuation-bit groups from `buf[*pos..]`, at most `max` bytes,
/// advancing `*pos` past every byte read.
fn scan_var(buf: &[u8], pos: &mut usize, max: usize) -> (r: Scanned)
    requires
        1 <= max <= 10,
    ensures
        match var_scan(buf@, *old(pos) as int, 0, max as nat) {
            VarScan::Done(n) => (r matches Scanned::Done(sum) && sum as nat == var_sum(
                buf@,
                *old(pos) as int,
                n,
            )) && *final(pos) == *old(pos) + n,
            VarScan::Eof(n) => r is Eof && *final(pos) == *old(pos) + n,
            VarScan::TooLong(n) => r is TooLong && *final(pos) == *old(pos) + n,
        },
{
    let ghost start = *old(pos);
    let mut sum: u128 = 0;
    let mut mult: u128 = 1;
    let mut count: usize = 0;
    proof {
        assert(pow128(0) == 1);
    }
    loop
        invariant
            start == *old(pos),
            1 <= max <= 10,
            count < max,
            *pos == start + count,
            sum == var_sum(buf@, start as int, count as nat),
            mult == pow128(count as nat),
            sum < mult,
            var_scan(buf@, start as int, 0, max as nat) == var_scan(
                buf@,
                start as int,
                count as nat,
                max as nat,
            ),
        decreases max - count,
    {
        proof {
            lemma_pow_mono(count as nat, 9);
            assert(pow128(9) == 9223372036854775808) by {
                reveal_with_fuel(pow128, 10);
            }
        }
        if *pos >= buf.len() {
            return Scanned::Eof;
        }
        let byte = buf[*pos];
        *pos = *pos + 1;
        let digit: u128 = (byte % 128) as u128;
        proof {
            assert(digit * mult <= 127 * 9223372036854775808) by (nonlinear_arith)
                requires
                    digit < 128,
                    mult <= 9223372036854775808,
            ;
            lemma_var_sum_bound(buf@, start as int, (count + 1) as nat);
            assert(pow128((count + 1) as nat) == 128 * mult);
        }
        sum = sum + digit * mult;
        count = count + 1;
        if byte < 128 {
            return Scanned::Done(sum);
        }
        if count >= max {
            return Scanned::TooLong;
        }
        mult = mult * 128;
    }
}

/// Reads a VarInt from `buf` at `*pos` (an already-received packet
/// body), advancing `*pos` past every byte it read, on failure too.
pub fn read_varint(buf: &[u8], pos: &mut usize) -> (r: Result<i32, ProtocolError>)
    ensures
        r == varint_decode(buf@, *old(pos) as int).0,
        *final(pos) == *old(pos) + varint_decode(buf@, *old(pos) as int).1,
{
    match scan_var(buf, pos, 5) {
        Scanned::Done(sum) => Ok(((sum % 0x1_0000_0000) as u32) as i32),
        Scanned::Eof => Err(ProtocolError::UnexpectedEof),
        Scanned::TooLong => Err(ProtocolError::VarIntTooLarge),
    }
}

/// Reads a VarLong from `buf` at `*pos`, advancing `*pos` past every
/// byte it read, on failure too.
pub fn read_varlong(buf: &[u8], pos: &mut usize) -> (r: Result<i64, ProtocolError>)
    ensures
        r == varlong_decode(buf@, *old(pos) as int).0,
        *final(pos) == *old(pos) + varlong_decode(buf@, *old(pos) as int).1,
{
    match scan_var(buf, pos, 10) {
        Scanned::Done(sum) => Ok(((sum % 0x1_0000_0000_0000_0000) as u64) as i64),
        Scanned::Eof => Err(ProtocolError::UnexpectedEof),
        Scanned::TooLong => Err(ProtocolError::VarLongTooLarge),
    }
}

/// Scanning from `pos` depends only on the bytes from `pos` on, and never
/// runs past the end of the input.
pub proof fn lemma_scan_shift(bytes: Seq<u8>, pos: int, count: nat, max: nat)
    requires
        0 <= pos <= bytes.len(),
        pos + count <= bytes.len(),
    ensures
        var_scan(bytes, pos, count, max) == var_scan(
            bytes.subrange(pos, bytes.len() as int),
            0,
            count,
            max,
        ),
        match var_scan(bytes, pos, count, max) {
            VarScan::Done(n) => pos + n <= bytes.len(),
            VarScan::Eof(n) => pos + n <= bytes.len(),
            VarScan::TooLong(n) => pos + n <= bytes.len(),
        },
    decreases max - count,
{
    let sub = bytes.subrange(pos, bytes.len() as int);
    if pos + count < bytes.len() {
        assert(sub[count as int] == bytes[pos + count]);
        if bytes[pos + count] >= 128 && count + 1 < max {
            lemma_scan_shift(bytes, pos, count + 1, max);
        }
    }
}

/// Decoding from `pos` is decoding the bytes from `pos` on.
pub proof fn lemma_decode_shift(bytes: Seq<u8>, pos: int)
    requires
        0 <= pos <= bytes.len(),
    ensures
        varint_decode(bytes, pos) == varint_decode(bytes.subrange(pos, bytes.len() as int), 0),
        varlong_decode(bytes, pos) == varlong_decode(bytes.subrange(pos, bytes.len() as int), 0),
        pos + varint_decode(bytes, pos).1 <= bytes.len(),
        pos + varlong_decode(bytes, pos).1 <= bytes.len(),
{
    let sub = bytes.subrange(pos, bytes.len() as int);
    lemma_scan_shift(bytes, pos, 0, 5);
    lemma_scan_shift(bytes, pos, 0, 10);
    match var_scan(bytes, pos, 0, 5) {
        VarScan::Done(n) => {
            assert(bytes.subrange(pos, pos + n) =~= sub.subrange(0, n as int));
            lemma_var_sum_prefix(bytes, sub, pos, 0, n);
        },
        _ => {},
    }
    match var_scan(bytes, pos, 0, 10) {
        VarScan::Done(n) => {
            assert(bytes.subrange(pos, pos + n) =~= sub.subrange(0, n as int));
            lemma_var_sum_prefix(bytes, sub, pos, 0, n);
        },
        _ => {},
    }
}

/// Outcome of feeding one more byte of a length prefix.
pub enum VarIntStep {
    /// The prefix is complete and holds this value.
    Done(i32),
    /// More bytes are needed.
    More,
    /// Five bytes arrived without an end: `VarIntTooLarge`.
    TooLarge,
}

/// A VarInt arriving one byte at a time off a stream (the outermost
/// frame length prefix, read before the rest of the frame's size is
/// known).
pub struct VarIntStream {
    bytes: Vec<u8>,
}

/// The bytes seen so far are an unfinished VarInt: fewer than five, each
/// with the continuation bit set.
pub open spec fn var_in_progress(seen: Seq<u8>) -> bool {
    seen.len() < 5 && forall|i: int| 0 <= i < seen.len() ==> #[trigger] seen[i] >= 128
}

proof fn lemma_scan_in_progress(s: Seq<u8>, count: nat)
    requires
        s.len() >= 1,
        var_in_progress(s.drop_last()),
        count <= s.len() - 1,
    ensures
        var_scan(s, 0, count, 5) == if s.last() < 128 {
            VarScan::Done(s.len())
        } else if s.len() >= 5 {
            VarScan::TooLong(s.len())
        } else {
            VarScan::Eof(s.len())
        },
    decreases s.len() - count,
{
    if count < s.len() - 1 {
        assert(s.drop_last()[count as int] >= 128);
        lemma_scan_in_progress(s, count + 1);
    } else {
        if s.last() >= 128 && s.len() < 5 {
            assert(var_scan(s, 0, count + 1, 5) == VarScan::Eof(s.len()));
        }
    }
}

impl VarIntStream {
    /// The bytes fed so far.
    pub closed spec fn seen(&self) -> Seq<u8> {
        self.bytes@
    }

    pub fn new() -> (s: Self)
        ensures
            s.seen() == Seq::<u8>::empty(),
    {
        VarIntStream { bytes: Vec::new() }
    }

    /// Feeds the next byte of the prefix.
    pub fn push(&mut self, byte: u8) -> (r: VarIntStep)
        requires
            var_in_progress(old(self).seen()),
        ensures
            final(self).seen() == old(self).seen().push(byte),
            byte < 128 ==> r == VarIntStep::Done(varint_decode(final(self).seen(), 0).0->Ok_0)
                && varint_decode(final(self).seen(), 0).0 is Ok,
            byte >= 128 && final(self).seen().len() >= 5 ==> r is TooLarge
                && varint_decode(final(self).seen(), 0).0 == Err::<i32, ProtocolError>(
                ProtocolError::VarIntTooLarge,
            ),
            byte >= 128 && final(self).seen().len() < 5 ==> r is More && var_in_progress(
                final(self).seen(),
            ),
    {
        self.bytes.push(byte);
        proof {
            assert(self.bytes@.drop_last() =~= old(self).seen());
            lemma_scan_in_progress(self.bytes@, 0);
        }
        if byte < 128 {
            let mut pos: usize = 0;
            match read_varint(self.bytes.as_slice(), &mut pos) {
                Ok(v) => VarIntStep::Done(v),
                Err(_) => VarIntStep::TooLarge,
            }
        } else if self.bytes.len() >= 5 {
            VarIntStep::TooLarge
        } else {
            VarIntStep::More
        }
    }
}

} // verus!
