//! Typed reader/writer for packet bodies, on top of the VarInt helpers in
//! `varint`. Field encodings follow the 1.8.9 protocol's data types:
//! fixed-width integers are big-endian two's complement.

use vstd::prelude::*;
use vstd::string::StringSliceAdditionalSpecFns;
use vstd::utf8::{decode_utf8, encode_utf8, encode_utf8_decode_utf8, encode_utf8_valid_utf8, valid_utf8};

use crate::error::ProtocolError;
use crate::varint::{
    lemma_decode_shift, lemma_varint_round_trip, read_varint, read_varlong, varint_bytes, varint_decode, varlong_bytes,
    varlong_decode, write_varint, write_varlong,
};

verus! {

/// 256 to the power `n`.
pub open spec fn pow256(n: nat) -> nat
    decreases n,
{
    if n == 0 {
        1
    } else {
        256 * pow256((n - 1) as nat)
    }
}

/// The low `n` bytes of `u`, most significant first.
pub open spec fn be_bytes(u: nat, n: nat) -> Seq<u8>
    decreases n,
{
    if n == 0 {
        Seq::empty()
    } else {
        be_bytes(u / 256, (n - 1) as nat).push((u % 256) as u8)
    }
}

/// The unsigned value of `bytes`, most significant first.
pub open spec fn be_value(bytes: Seq<u8>) -> nat
    decreases bytes.len(),
{
    if bytes.len() == 0 {
        0
    } else {
        be_value(bytes.drop_last()) * 256 + bytes.last() as nat
    }
}

pub proof fn lemma_be_bytes_len(u: nat, n: nat)
    ensures
        be_bytes(u, n).len() == n,
    decreases n,
{
    if n > 0 {
        lemma_be_bytes_len(u / 256, (n - 1) as nat);
    }
}

proof fn lemma_pow256_pos(n: nat)
    ensures
        pow256(n) >= 1,
    decreases n,
{
    if n > 0 {
        lemma_pow256_pos((n - 1) as nat);
    }
}

proof fn lemma_be_value_bound(bytes: Seq<u8>)
    ensures
        be_value(bytes) < pow256(bytes.len()),
    decreases bytes.len(),
{
    if bytes.len() > 0 {
        lemma_be_value_bound(bytes.drop_last());
        let p = pow256((bytes.len() - 1) as nat);
        let v = be_value(bytes.drop_last());
        let b = bytes.last() as nat;
        assert(v * 256 + b < 256 * p) by (nonlinear_arith)
            requires
                v < p,
                b < 256,
        ;
    }
}

/// Big-endian bytes read back give the value they were cut from.
pub proof fn lemma_be_round_trip(u: nat, n: nat)
    ensures
        be_value(be_bytes(u, n)) == u % pow256(n),
    decreases n,
{
    if n == 0 {
        assert(u % 1 == 0);
    } else {
        let m = (n - 1) as nat;
        lemma_be_round_trip(u / 256, m);
        lemma_be_bytes_len(u / 256, m);
        let s = be_bytes(u / 256, m);
        assert(be_bytes(u, n).drop_last() =~= s);
        lemma_pow256_pos(m);
        vstd::arithmetic::div_mod::lemma_mod_breakdown(u as int, 256, pow256(m) as int);
        assert(256 * pow256(m) == pow256(n));
        assert(((u / 256) % pow256(m)) * 256 == 256 * ((u / 256) % pow256(m)));
    }
}

/// Appends the low `n` bytes of `u`, most significant first.
fn push_be(buf: &mut Vec<u8>, u: u128, n: usize)
    requires
        n <= 16,
    ensures
        final(buf)@ == old(buf)@ + be_bytes(u as nat, n as nat),
    decreases n,
{
    if n > 0 {
        push_be(buf, u / 256, n - 1);
        let ghost mid = buf@;
        buf.push((u % 256) as u8);
        assert(buf@ =~= old(buf)@ + be_bytes(u as nat, n as nat)) by {
            assert(mid == old(buf)@ + be_bytes((u / 256) as nat, (n - 1) as nat));
        }
    }
}

/// Bytes `write_i16` appends.
pub open spec fn i16_bytes(v: i16) -> Seq<u8> {
    be_bytes((v as u16) as nat, 2)
}

/// Bytes `write_i32` appends.
pub open spec fn i32_bytes(v: i32) -> Seq<u8> {
    be_bytes((v as u32) as nat, 4)
}

/// Bytes `write_i64` appends.
pub open spec fn i64_bytes(v: i64) -> Seq<u8> {
    be_bytes((v as u64) as nat, 8)
}

/// The 1.8.9 block Position: one i64 packing x (26 bits), y (12 bits)
/// and z (26 bits), each taken as two's complement.
pub open spec fn pack_position(x: i32, y: i32, z: i32) -> i64 {
    (((x as i64) & 0x3FFFFFF) << 38) | (((y as i64) & 0xFFF) << 26) | ((z as i64) & 0x3FFFFFF)
}

/// The (x, y, z) an encoded Position holds: x and z come out of the
/// arithmetic shifts already sign-extended; y is sign-extended by hand.
pub open spec fn unpack_position(val: i64) -> (i32, i32, i32) {
    let y = ((val >> 26) & 0xFFF) as i32;
    ((val >> 38) as i32, if y >= 2048 {
        (y - 4096) as i32
    } else {
        y
    }, ((val << 38) >> 38) as i32)
}

/// Coordinates a Position can hold: 26-bit x and z, 12-bit y.
pub open spec fn position_in_range(x: i32, y: i32, z: i32) -> bool {
    &&& -0x2000000 <= x < 0x2000000
    &&& -2048 <= y < 2048
    &&& -0x2000000 <= z < 0x2000000
}

/// Reading back a packed Position gives the coordinates it was packed
/// from, for every coordinate the format can hold.
pub proof fn lemma_position_round_trip(x: i32, y: i32, z: i32)
    requires
        position_in_range(x, y, z),
    ensures
        unpack_position(pack_position(x, y, z)) == (x, y, z),
{
    let val = pack_position(x, y, z);
    assert((val >> 38) as i32 == x) by (bit_vector)
        requires
            val == (((x as i64) & 0x3FFFFFF) << 38) | (((y as i64) & 0xFFF) << 26) | ((z as i64)
                & 0x3FFFFFF),
            -0x2000000 <= x < 0x2000000,
    ;
    assert(((val << 38) >> 38) as i32 == z) by (bit_vector)
        requires
            val == (((x as i64) & 0x3FFFFFF) << 38) | (((y as i64) & 0xFFF) << 26) | ((z as i64)
                & 0x3FFFFFF),
            -0x2000000 <= z < 0x2000000,
    ;
    let yy = ((val >> 26) & 0xFFF) as i32;
    assert((y >= 0 ==> yy == y) && (y < 0 ==> yy == y + 4096)) by (bit_vector)
        requires
            val == (((x as i64) & 0x3FFFFFF) << 38) | (((y as i64) & 0xFFF) << 26) | ((z as i64)
                & 0x3FFFFFF),
            yy == ((val >> 26) & 0xFFF) as i32,
            -2048 <= y < 2048,
    ;
}

/// The unsigned 12-bit and 26-bit fields that hold a two's complement
/// value `v` of that width.
pub open spec fn low_bits(v: int, width: nat) -> int {
    if v >= 0 {
        v
    } else {
        v + vstd::arithmetic::power2::pow2(width) as int
    }
}

/// The block Position's layout, as arithmetic: x times 2^38, plus y's
/// 12 bits times 2^26, plus z's 26 bits. Every coordinate the format
/// holds is packed that way, and every 64-bit value reads back as the
/// coordinates that lay it out that way (x in the high 26 bits, y in the
/// 12 below, z in the low 26), each in range.
pub proof fn lemma_position_layout(x: i32, y: i32, z: i32, v: i64)
    ensures
        position_in_range(x, y, z) ==> pack_position(x, y, z) as int == x * 274877906944 + low_bits(
            y as int,
            12,
        ) * 67108864 + low_bits(z as int, 26),
        ({
            let (px, py, pz) = unpack_position(v);
            &&& position_in_range(px, py, pz)
            &&& v as int == px * 274877906944 + low_bits(py as int, 12) * 67108864 + low_bits(
                pz as int,
                26,
            )
        }),
{
    vstd::arithmetic::power2::lemma2_to64();
    assert(vstd::arithmetic::power2::pow2(26) == 67108864) by {
        vstd::arithmetic::power2::lemma2_to64_rest();
    }
    if position_in_range(x, y, z) {
        let val = pack_position(x, y, z);
        let yb: i64 = if y >= 0 {
            y as i64
        } else {
            (y + 4096) as i64
        };
        let zb: i64 = if z >= 0 {
            z as i64
        } else {
            (z + 67108864) as i64
        };
        assert(val as int == x * 274877906944 + yb * 67108864 + zb) by (bit_vector)
            requires
                val == (((x as i64) & 0x3FFFFFF) << 38) | (((y as i64) & 0xFFF) << 26) | ((z
                    as i64) & 0x3FFFFFF),
                -0x2000000 <= x < 0x2000000,
                -2048 <= y < 2048,
                -0x2000000 <= z < 0x2000000,
                yb == if y >= 0 {
                    y as i64
                } else {
                    (y + 4096) as i64
                },
                zb == if z >= 0 {
                    z as i64
                } else {
                    (z + 67108864) as i64
                },
        ;
    }
    let px = (v >> 38) as i32;
    let y0 = ((v >> 26) & 0xFFF) as i32;
    let py: i32 = if y0 >= 2048 {
        (y0 - 4096) as i32
    } else {
        y0
    };
    let pz = ((v << 38) >> 38) as i32;
    assert(unpack_position(v) == (px, py, pz));
    let yb: i64 = if py >= 0 {
        py as i64
    } else {
        (py + 4096) as i64
    };
    let zb: i64 = if pz >= 0 {
        pz as i64
    } else {
        (pz + 67108864) as i64
    };
    assert(-0x2000000 <= px < 0x2000000 && -0x2000000 <= pz < 0x2000000 && 0 <= y0 < 4096
        && v as int == px * 274877906944 + y0 * 67108864 + zb) by (bit_vector)
        requires
            px == (v >> 38) as i32,
            y0 == ((v >> 26) & 0xFFF) as i32,
            pz == ((v << 38) >> 38) as i32,
            zb == if pz >= 0 {
                pz as i64
            } else {
                (pz + 67108864) as i64
            },
    ;
    assert(yb == y0);
}

/// Reading an `n`-byte fixed-width field from `u`: its unsigned
/// big-endian value and the bytes after it, or `UnexpectedEof` (reading
/// nothing) when fewer than `n` bytes are left.
pub open spec fn be_field(u: Seq<u8>, n: nat) -> (Result<nat, ProtocolError>, Seq<u8>) {
    if u.len() >= n {
        (Ok(be_value(u.take(n as int))), u.skip(n as int))
    } else {
        (Err(ProtocolError::UnexpectedEof), u)
    }
}

pub open spec fn u8_field(u: Seq<u8>) -> (Result<u8, ProtocolError>, Seq<u8>) {
    match be_field(u, 1) {
        (Ok(v), rest) => (Ok(v as u8), rest),
        (Err(e), rest) => (Err(e), rest),
    }
}

pub open spec fn bool_field(u: Seq<u8>) -> (Result<bool, ProtocolError>, Seq<u8>) {
    match be_field(u, 1) {
        (Ok(v), rest) => (Ok((v as u8) != 0), rest),
        (Err(e), rest) => (Err(e), rest),
    }
}

pub open spec fn i8_field(u: Seq<u8>) -> (Result<i8, ProtocolError>, Seq<u8>) {
    match be_field(u, 1) {
        (Ok(v), rest) => (Ok((v as u8) as i8), rest),
        (Err(e), rest) => (Err(e), rest),
    }
}

pub open spec fn u16_field(u: Seq<u8>) -> (Result<u16, ProtocolError>, Seq<u8>) {
    match be_field(u, 2) {
        (Ok(v), rest) => (Ok(v as u16), rest),
        (Err(e), rest) => (Err(e), rest),
    }
}

pub open spec fn i32_field(u: Seq<u8>) -> (Result<i32, ProtocolError>, Seq<u8>) {
    match be_field(u, 4) {
        (Ok(v), rest) => (Ok((v as u32) as i32), rest),
        (Err(e), rest) => (Err(e), rest),
    }
}

pub open spec fn i64_field(u: Seq<u8>) -> (Result<i64, ProtocolError>, Seq<u8>) {
    match be_field(u, 8) {
        (Ok(v), rest) => (Ok((v as u64) as i64), rest),
        (Err(e), rest) => (Err(e), rest),
    }
}

pub open spec fn varint_field(u: Seq<u8>) -> (Result<i32, ProtocolError>, Seq<u8>) {
    (varint_decode(u, 0).0, u.skip(varint_decode(u, 0).1 as int))
}

pub open spec fn position_field(u: Seq<u8>) -> (Result<(i32, i32, i32), ProtocolError>, Seq<u8>) {
    match i64_field(u) {
        (Ok(v), rest) => (Ok(unpack_position(v)), rest),
        (Err(e), rest) => (Err(e), rest),
    }
}

/// What reading a String field (VarInt byte length, then that many
/// UTF-8 bytes) from `u` gives, and the bytes left after it.
pub open spec fn string_field(u: Seq<u8>) -> (Result<Seq<char>, ProtocolError>, Seq<u8>) {
    let (len_field, n) = varint_decode(u, 0);
    let rest = u.skip(n as int);
    match len_field {
        Err(e) => (Err(e), rest),
        Ok(v) => {
            let len = v as usize;
            if len > rest.len() {
                (Err(ProtocolError::UnexpectedEof), rest)
            } else {
                let bytes = rest.take(len as int);
                if valid_utf8(bytes) {
                    (Ok(decode_utf8(bytes)), rest.skip(len as int))
                } else {
                    (Err(ProtocolError::InvalidString), rest.skip(len as int))
                }
            }
        },
    }
}

/// `String::from_utf8`: `Some` exactly when `bytes` are valid UTF-8, and
/// then the string those bytes encode.
#[verifier::external_body]
fn string_from_utf8(bytes: Vec<u8>) -> (r: Option<String>)
    ensures
        r is Some <==> valid_utf8(bytes@),
        r matches Some(s) ==> s@ == decode_utf8(bytes@),
{
    String::from_utf8(bytes).ok()
}

/// A packet body being read front to back.
pub struct PacketReader {
    buf: Vec<u8>,
    pos: usize,
}

impl PacketReader {
    #[verifier::type_invariant]
    spec fn inv(self) -> bool {
        self.pos <= self.buf@.len()
    }

    /// The bytes not read yet.
    pub closed spec fn unread(&self) -> Seq<u8> {
        self.buf@.subrange(self.pos as int, self.buf@.len() as int)
    }

    pub fn new(buf: Vec<u8>) -> (r: Self)
        ensures
            r.unread() == buf@,
    {
        let r = PacketReader { buf, pos: 0 };
        assert(r.unread() =~= r.buf@);
        r
    }

    /// Number of bytes not read yet.
    pub fn remaining(&self) -> (n: usize)
        ensures
            n == self.unread().len(),
    {
        proof {
            use_type_invariant(self);
        }
        self.buf.len() - self.pos
    }

    /// Takes the next `n` bytes, or fails with `UnexpectedEof` (reading
    /// nothing) when fewer are left.
    fn take(&mut self, n: usize) -> (r: Result<Vec<u8>, ProtocolError>)
        ensures
            n <= old(self).unread().len() ==> r == Ok::<Vec<u8>, ProtocolError>(
                r->Ok_0,
            ) && r->Ok_0@ == old(self).unread().take(n as int) && final(self).unread() == old(
                self,
            ).unread().skip(n as int),
            n > old(self).unread().len() ==> r == Err::<Vec<u8>, ProtocolError>(
                ProtocolError::UnexpectedEof,
            ) && final(self).unread() == old(self).unread(),
    {
        proof {
            use_type_invariant(&*self);
        }
        if self.buf.len() - self.pos < n {
            return Err(ProtocolError::UnexpectedEof);
        }
        let mut out: Vec<u8> = Vec::new();
        let start = self.pos;
        let mut i: usize = 0;
        while i < n
            invariant
                start + n <= self.buf.len(),
                self.pos == start,
                out@ == self.buf@.subrange(start as int, (start + i) as int),
                i <= n,
            decreases n - i,
        {
            out.push(self.buf[start + i]);
            i = i + 1;
            assert(out@ =~= self.buf@.subrange(start as int, (start + i) as int));
        }
        self.pos = start + n;
        assert(out@ =~= old(self).unread().take(n as int));
        assert(self.unread() =~= old(self).unread().skip(n as int));
        Ok(out)
    }
    /// Reads an `n`-byte big-endian unsigned field.
    fn read_be(&mut self, n: usize) -> (r: Result<u128, ProtocolError>)
        requires
            n <= 16,
        ensures
            n <= old(self).unread().len() ==> r == Ok::<u128, ProtocolError>(
                be_value(old(self).unread().take(n as int)) as u128,
            ) && final(self).unread() == old(self).unread().skip(n as int),
            n > old(self).unread().len() ==> r == Err::<u128, ProtocolError>(
                ProtocolError::UnexpectedEof,
            ) && final(self).unread() == old(self).unread(),
            r is Ok ==> r->Ok_0 < pow256(n as nat),
            n <= old(self).unread().len() ==> be_value(old(self).unread().take(n as int)) < pow256(
                n as nat,
            ),
    {
        proof {
            if n <= self.unread().len() {
                lemma_be_value_bound(self.unread().take(n as int));
            }
        }
        let bytes = self.take(n)?;
        let mut acc: u128 = 0;
        let mut i: usize = 0;
        proof {
            assert(pow256(0) == 1);
            assert(bytes@.take(0) =~= Seq::<u8>::empty());
        }
        while i < n
            invariant
                n <= 16,
                bytes@.len() == n,
                i <= n,
                acc == be_value(bytes@.take(i as int)),
                acc < pow256(i as nat),
            decreases n - i,
        {
            proof {
                lemma_pow_mono256(i as nat, 15);
                assert(pow256(15) == 1329227995784915872903807060280344576) by {
                    reveal_with_fuel(pow256, 16);
                }
                assert(bytes@.take(i + 1).drop_last() =~= bytes@.take(i as int));
                assert(acc * 256 + bytes@[i as int] < 256 * pow256(i as nat)) by (nonlinear_arith)
                    requires
                        acc < pow256(i as nat),
                        bytes@[i as int] < 256,
                ;
            }
            acc = acc * 256 + bytes[i] as u128;
            i = i + 1;
        }
        assert(bytes@.take(n as int) =~= bytes@);
        Ok(acc)
    }

    pub fn read_varint(&mut self) -> (r: Result<i32, ProtocolError>)
        ensures
            (r, final(self).unread()) == varint_field(old(self).unread()),
            r == varint_decode(old(self).unread(), 0).0,
            final(self).unread() == old(self).unread().skip(
                varint_decode(old(self).unread(), 0).1 as int,
            ),
    {
        proof {
            use_type_invariant(&*self);
            lemma_decode_shift(self.buf@, self.pos as int);
        }
        let mut p = self.pos;
        let r = read_varint(self.buf.as_slice(), &mut p);
        self.pos = p;
        assert(self.unread() =~= old(self).unread().skip(
            varint_decode(old(self).unread(), 0).1 as int,
        ));
        r
    }

    pub fn read_varlong(&mut self) -> (r: Result<i64, ProtocolError>)
        ensures
            r == varlong_decode(old(self).unread(), 0).0,
            final(self).unread() == old(self).unread().skip(
                varlong_decode(old(self).unread(), 0).1 as int,
            ),
    {
        proof {
            use_type_invariant(&*self);
            lemma_decode_shift(self.buf@, self.pos as int);
        }
        let mut p = self.pos;
        let r = read_varlong(self.buf.as_slice(), &mut p);
        self.pos = p;
        assert(self.unread() =~= old(self).unread().skip(
            varlong_decode(old(self).unread(), 0).1 as int,
        ));
        r
    }

    pub fn read_u8(&mut self) -> (r: Result<u8, ProtocolError>)
        ensures
            (r, final(self).unread()) == u8_field(old(self).unread()),
            old(self).unread().len() >= 1 ==> r == Ok::<u8, ProtocolError>(old(self).unread()[0])
                && final(self).unread() == old(self).unread().skip(1),
            old(self).unread().len() < 1 ==> r == Err::<u8, ProtocolError>(
                ProtocolError::UnexpectedEof,
            ) && final(self).unread() == old(self).unread(),
    {
        let v = self.read_be(1)?;
        proof {
            let t = old(self).unread().take(1);
            assert(t.drop_last() =~= Seq::<u8>::empty());
            assert(be_value(Seq::<u8>::empty()) == 0);
            assert(t.last() == t[0]);
            assert(be_value(t) == t[0] as nat);
        }
        Ok(v as u8)
    }

    /// A byte, nonzero meaning true.
    pub fn read_bool(&mut self) -> (r: Result<bool, ProtocolError>)
        ensures
            (r, final(self).unread()) == bool_field(old(self).unread()),
            old(self).unread().len() >= 1 ==> r == Ok::<bool, ProtocolError>(
                old(self).unread()[0] != 0,
            ) && final(self).unread() == old(self).unread().skip(1),
            old(self).unread().len() < 1 ==> r == Err::<bool, ProtocolError>(
                ProtocolError::UnexpectedEof,
            ) && final(self).unread() == old(self).unread(),
    {
        Ok(self.read_u8()? != 0)
    }

    pub fn read_i8(&mut self) -> (r: Result<i8, ProtocolError>)
        ensures
            (r, final(self).unread()) == i8_field(old(self).unread()),
            old(self).unread().len() >= 1 ==> r == Ok::<i8, ProtocolError>(
                old(self).unread()[0] as i8,
            ) && final(self).unread() == old(self).unread().skip(1),
            old(self).unread().len() < 1 ==> r == Err::<i8, ProtocolError>(
                ProtocolError::UnexpectedEof,
            ) && final(self).unread() == old(self).unread(),
    {
        let b = self.read_u8()?;
        Ok(b as i8)
    }

    pub fn read_u16(&mut self) -> (r: Result<u16, ProtocolError>)
        ensures
            (r, final(self).unread()) == u16_field(old(self).unread()),
            old(self).unread().len() >= 2 ==> r == Ok::<u16, ProtocolError>(
                be_value(old(self).unread().take(2)) as u16,
            ) && final(self).unread() == old(self).unread().skip(2),
            old(self).unread().len() < 2 ==> r == Err::<u16, ProtocolError>(
                ProtocolError::UnexpectedEof,
            ) && final(self).unread() == old(self).unread(),
    {
        let v = self.read_be(2)?;
        proof {
            assert(pow256(2) == 65536) by {
                reveal_with_fuel(pow256, 3);
            }
        }
        Ok(v as u16)
    }

    pub fn read_i16(&mut self) -> (r: Result<i16, ProtocolError>)
        ensures
            old(self).unread().len() >= 2 ==> r == Ok::<i16, ProtocolError>(
                (be_value(old(self).unread().take(2)) as u16) as i16,
            ) && final(self).unread() == old(self).unread().skip(2),
            old(self).unread().len() < 2 ==> r == Err::<i16, ProtocolError>(
                ProtocolError::UnexpectedEof,
            ) && final(self).unread() == old(self).unread(),
    {
        let v = self.read_u16()?;
        Ok(v as i16)
    }

    pub fn read_i32(&mut self) -> (r: Result<i32, ProtocolError>)
        ensures
            (r, final(self).unread()) == i32_field(old(self).unread()),
            old(self).unread().len() >= 4 ==> r == Ok::<i32, ProtocolError>(
                (be_value(old(self).unread().take(4)) as u32) as i32,
            ) && final(self).unread() == old(self).unread().skip(4),
            old(self).unread().len() < 4 ==> r == Err::<i32, ProtocolError>(
                ProtocolError::UnexpectedEof,
            ) && final(self).unread() == old(self).unread(),
    {
        let v = self.read_be(4)?;
        proof {
            assert(pow256(4) == 4294967296) by {
                reveal_with_fuel(pow256, 5);
            }
        }
        Ok((v as u32) as i32)
    }

    pub fn read_i64(&mut self) -> (r: Result<i64, ProtocolError>)
        ensures
            (r, final(self).unread()) == i64_field(old(self).unread()),
            old(self).unread().len() >= 8 ==> r == Ok::<i64, ProtocolError>(
                (be_value(old(self).unread().take(8)) as u64) as i64,
            ) && final(self).unread() == old(self).unread().skip(8),
            old(self).unread().len() < 8 ==> r == Err::<i64, ProtocolError>(
                ProtocolError::UnexpectedEof,
            ) && final(self).unread() == old(self).unread(),
    {
        let v = self.read_be(8)?;
        proof {
            assert(pow256(8) == 18446744073709551616) by {
                reveal_with_fuel(pow256, 9);
            }
        }
        Ok((v as u64) as i64)
    }

    /// A raw 16-byte UUID, as entity UUIDs are sent on the wire.
    pub fn read_uuid_bytes(&mut self) -> (r: Result<u128, ProtocolError>)
        ensures
            old(self).unread().len() >= 16 ==> r == Ok::<u128, ProtocolError>(
                be_value(old(self).unread().take(16)) as u128,
            ) && final(self).unread() == old(self).unread().skip(16),
            old(self).unread().len() < 16 ==> r == Err::<u128, ProtocolError>(
                ProtocolError::UnexpectedEof,
            ) && final(self).unread() == old(self).unread(),
    {
        self.read_be(16)
    }

    /// Consumes and returns exactly `len` raw bytes.
    pub fn read_bytes(&mut self, len: usize) -> (r: Result<Vec<u8>, ProtocolError>)
        ensures
            len <= old(self).unread().len() ==> r is Ok && r->Ok_0@ == old(self).unread().take(
                len as int,
            ) && final(self).unread() == old(self).unread().skip(len as int),
            len > old(self).unread().len() ==> r == Err::<Vec<u8>, ProtocolError>(
                ProtocolError::UnexpectedEof,
            ) && final(self).unread() == old(self).unread(),
    {
        self.take(len)
    }

    /// Consumes and returns every byte not read yet.
    pub fn read_remaining(&mut self) -> (r: Vec<u8>)
        ensures
            r@ == old(self).unread(),
            final(self).unread() == Seq::<u8>::empty(),
    {
        let n = self.remaining();
        let r = self.take(n);
        match r {
            Ok(v) => {
                assert(old(self).unread().take(n as int) =~= old(self).unread());
                assert(self.unread() =~= Seq::<u8>::empty());
                v
            },
            Err(_) => Vec::new(),
        }
    }

    /// A String field: VarInt byte length, then that many UTF-8 bytes.
    pub fn read_string(&mut self) -> (r: Result<String, ProtocolError>)
        ensures
            final(self).unread() == string_field(old(self).unread()).1,
            match string_field(old(self).unread()).0 {
                Ok(chars) => r matches Ok(s) && s@ == chars,
                Err(e) => r == Err::<String, ProtocolError>(e),
            },
    {
        let len = self.read_varint()? as usize;
        let bytes = self.read_bytes(len)?;
        match string_from_utf8(bytes) {
            Some(s) => Ok(s),
            None => Err(ProtocolError::InvalidString),
        }
    }

    /// The dashed-hex UUID string of the Login Success packet (a plain
    /// String field).
    pub fn read_uuid_string(&mut self) -> (r: Result<String, ProtocolError>)
        ensures
            final(self).unread() == string_field(old(self).unread()).1,
            match string_field(old(self).unread()).0 {
                Ok(chars) => r matches Ok(s) && s@ == chars,
                Err(e) => r == Err::<String, ProtocolError>(e),
            },
    {
        self.read_string()
    }

    /// Decodes the 1.8.9 block Position type (see `unpack_position`).
    pub fn read_position(&mut self) -> (r: Result<(i32, i32, i32), ProtocolError>)
        ensures
            (r, final(self).unread()) == position_field(old(self).unread()),
            old(self).unread().len() >= 8 ==> r == Ok::<(i32, i32, i32), ProtocolError>(
                unpack_position((be_value(old(self).unread().take(8)) as u64) as i64),
            ) && final(self).unread() == old(self).unread().skip(8),
            old(self).unread().len() < 8 ==> r == Err::<(i32, i32, i32), ProtocolError>(
                ProtocolError::UnexpectedEof,
            ) && final(self).unread() == old(self).unread(),
    {
        let val = self.read_i64()?;
        let x = (val >> 38) as i32;
        let mut y = ((val >> 26) & 0xFFF) as i32;
        let z = ((val << 38) >> 38) as i32;
        if y >= 2048 {
            y = y - 4096;
        }
        Ok((x, y, z))
    }
}

proof fn lemma_pow_mono256(a: nat, b: nat)
    requires
        a <= b,
    ensures
        pow256(a) <= pow256(b),
    decreases b - a,
{
    if a < b {
        lemma_pow_mono256(a, (b - 1) as nat);
        lemma_pow256_pos((b - 1) as nat);
    }
}

/// A packet body being written front to back.
pub struct PacketWriter {
    buf: Vec<u8>,
}

impl PacketWriter {
    /// The bytes written so far.
    pub closed spec fn bytes(&self) -> Seq<u8> {
        self.buf@
    }

    pub fn new() -> (w: Self)
        ensures
            w.bytes() == Seq::<u8>::empty(),
    {
        PacketWriter { buf: Vec::new() }
    }

    pub fn into_bytes(self) -> (v: Vec<u8>)
        ensures
            v@ == self.bytes(),
    {
        self.buf
    }

    pub fn write_varint(&mut self, value: i32) -> (r: &mut Self)
        ensures
            r.bytes() == old(self).bytes() + varint_bytes(value),
            *final(self) == *final(r),
    {
        write_varint(&mut self.buf, value);
        self
    }

    pub fn write_varlong(&mut self, value: i64) -> (r: &mut Self)
        ensures
            r.bytes() == old(self).bytes() + varlong_bytes(value),
            *final(self) == *final(r),
    {
        write_varlong(&mut self.buf, value);
        self
    }

    /// One byte: 1 for true, 0 for false.
    pub fn write_bool(&mut self, value: bool) -> (r: &mut Self)
        ensures
            r.bytes() == old(self).bytes().push(if value {
                1u8
            } else {
                0u8
            }),
            *final(self) == *final(r),
    {
        self.buf.push(if value {
            1
        } else {
            0
        });
        self
    }

    pub fn write_u8(&mut self, value: u8) -> (r: &mut Self)
        ensures
            r.bytes() == old(self).bytes().push(value),
            *final(self) == *final(r),
    {
        self.buf.push(value);
        self
    }

    pub fn write_i16(&mut self, value: i16) -> (r: &mut Self)
        ensures
            r.bytes() == old(self).bytes() + i16_bytes(value),
            *final(self) == *final(r),
    {
        push_be(&mut self.buf, (value as u16) as u128, 2);
        self
    }

    pub fn write_i32(&mut self, value: i32) -> (r: &mut Self)
        ensures
            r.bytes() == old(self).bytes() + i32_bytes(value),
            *final(self) == *final(r),
    {
        push_be(&mut self.buf, (value as u32) as u128, 4);
        self
    }

    pub fn write_i64(&mut self, value: i64) -> (r: &mut Self)
        ensures
            r.bytes() == old(self).bytes() + i64_bytes(value),
            *final(self) == *final(r),
    {
        push_be(&mut self.buf, (value as u64) as u128, 8);
        self
    }

    /// A String field: VarInt byte length (cast to i32), then the UTF-8
    /// bytes.
    pub fn write_string(&mut self, value: &str) -> (r: &mut Self)
        ensures
            r.bytes() == old(self).bytes() + varint_bytes(value.len() as i32)
                + value.spec_bytes(),
            *final(self) == *final(r),
    {
        write_varint(&mut self.buf, value.len() as i32);
        self.buf.extend_from_slice(value.as_bytes());
        assert(self.buf@ =~= old(self).bytes() + varint_bytes(value.len() as i32)
            + value.spec_bytes());
        self
    }

    pub fn write_bytes(&mut self, value: &[u8]) -> (r: &mut Self)
        ensures
            r.bytes() == old(self).bytes() + value@,
            *final(self) == *final(r),
    {
        self.buf.extend_from_slice(value);
        assert(self.buf@ =~= old(self).bytes() + value@);
        self
    }

    /// Encodes the 1.8.9 block Position type (see `pack_position`).
    pub fn write_position(&mut self, x: i32, y: i32, z: i32) -> (r: &mut Self)
        ensures
            r.bytes() == old(self).bytes() + i64_bytes(pack_position(x, y, z)),
            *final(self) == *final(r),
    {
        let val = (((x as i64) & 0x3FFFFFF) << 38) | (((y as i64) & 0xFFF) << 26) | ((z as i64)
            & 0x3FFFFFF);
        self.write_i64(val)
    }
}

/// A writer holds exactly what its calls appended, in call order: for any
/// run of writers `ws[0]`, `ws[1]`, ... where `ws[0]` is fresh and each
/// `ws[i + 1]` is `ws[i]` after one `write_*` call appending `parts[i]`
/// (that call's own encoding), the last writer's bytes are the
/// concatenation of all the parts. `into_bytes` then hands out exactly
/// those bytes; with no call at all they are empty.
pub proof fn lemma_writes_concatenate(ws: Seq<PacketWriter>, parts: Seq<Seq<u8>>)
    requires
        ws.len() == parts.len() + 1,
        ws[0].bytes() == Seq::<u8>::empty(),
        forall|i: int| 0 <= i < parts.len() ==> #[trigger] ws[i + 1].bytes() == ws[i].bytes() + parts[i],
    ensures
        ws[parts.len() as int].bytes() == parts.flatten(),
    decreases parts.len(),
{
    parts.lemma_flatten_and_flatten_alt_are_equivalent();
    if parts.len() > 0 {
        let n = parts.len() - 1;
        lemma_writes_concatenate(ws.take(n + 1), parts.take(n));
        assert(parts.drop_last() =~= parts.take(n));
        parts.take(n).lemma_flatten_and_flatten_alt_are_equivalent();
        assert(ws[n + 1].bytes() == ws[n].bytes() + parts[n]);
        assert(ws.take(n + 1)[n] == ws[n]);
    } else {
        assert(parts.flatten_alt() =~= Seq::<u8>::empty());
    }
}

/// The bytes `read_i16`/`read_i32`/`read_i64` see at the front of what
/// `write_i16`/`write_i32`/`write_i64` wrote give back the written value.
pub proof fn lemma_fixed_round_trip(a: i16, b: i32, c: i64, rest: Seq<u8>)
    ensures
        (be_value((i16_bytes(a) + rest).take(2)) as u16) as i16 == a,
        (be_value((i32_bytes(b) + rest).take(4)) as u32) as i32 == b,
        (be_value((i64_bytes(c) + rest).take(8)) as u64) as i64 == c,
        (i16_bytes(a) + rest).skip(2) == rest,
        (i32_bytes(b) + rest).skip(4) == rest,
        (i64_bytes(c) + rest).skip(8) == rest,
{
    lemma_be_bytes_len((a as u16) as nat, 2);
    lemma_be_bytes_len((b as u32) as nat, 4);
    lemma_be_bytes_len((c as u64) as nat, 8);
    assert((i16_bytes(a) + rest).take(2) =~= i16_bytes(a));
    assert((i32_bytes(b) + rest).take(4) =~= i32_bytes(b));
    assert((i64_bytes(c) + rest).take(8) =~= i64_bytes(c));
    assert((i16_bytes(a) + rest).skip(2) =~= rest);
    assert((i32_bytes(b) + rest).skip(4) =~= rest);
    assert((i64_bytes(c) + rest).skip(8) =~= rest);
    lemma_be_round_trip((a as u16) as nat, 2);
    lemma_be_round_trip((b as u32) as nat, 4);
    lemma_be_round_trip((c as u64) as nat, 8);
    assert(pow256(2) == 65536) by {
        reveal_with_fuel(pow256, 3);
    }
    assert(pow256(4) == 4294967296) by {
        reveal_with_fuel(pow256, 5);
    }
    assert(pow256(8) == 18446744073709551616) by {
        reveal_with_fuel(pow256, 9);
    }
    let ua: u16 = a as u16;
    let ub: u32 = b as u32;
    let uc: u64 = c as u64;
    assert(ua as i16 == a) by (bit_vector)
        requires
            ua == a as u16,
    ;
    assert(ub as i32 == b) by (bit_vector)
        requires
            ub == b as u32,
    ;
    assert(uc as i64 == c) by (bit_vector)
        requires
            uc == c as u64,
    ;
}

/// Reading a Position back from what `write_position` wrote gives the
/// same coordinates, for every coordinate the format can hold.
pub proof fn lemma_position_field_round_trip(x: i32, y: i32, z: i32, rest: Seq<u8>)
    requires
        position_in_range(x, y, z),
    ensures
        unpack_position(
            (be_value((i64_bytes(pack_position(x, y, z)) + rest).take(8)) as u64) as i64,
        ) == (x, y, z),
        (i64_bytes(pack_position(x, y, z)) + rest).skip(8) == rest,
{
    lemma_fixed_round_trip(0, 0, pack_position(x, y, z), rest);
    lemma_position_round_trip(x, y, z);
}

/// Reading a String field back from what `write_string` wrote gives the
/// same characters and leaves exactly what followed, for every string
/// whose UTF-8 length fits the i32 length prefix.
pub proof fn lemma_string_round_trip(s: Seq<char>, rest: Seq<u8>)
    requires
        encode_utf8(s).len() <= i32::MAX,
    ensures
        string_field(varint_bytes(encode_utf8(s).len() as i32) + encode_utf8(s) + rest) == (
            Ok::<Seq<char>, ProtocolError>(s),
            rest,
        ),
{
    let body = encode_utf8(s);
    let len = body.len() as i32;
    let prefix = varint_bytes(len);
    let all = prefix + body + rest;
    assert(all.subrange(0, prefix.len() as int) =~= prefix);
    lemma_varint_round_trip(len, all, 0);
    let after = all.skip(prefix.len() as int);
    assert(after =~= body + rest);
    assert((len as usize) as int == body.len());
    assert(after.take(body.len() as int) =~= body);
    assert(after.skip(body.len() as int) =~= rest);
    encode_utf8_valid_utf8(s);
    encode_utf8_decode_utf8(s);
}

} // verus!
