//! Server addresses as typed by the player: `host[:port]`, the port
//! defaulting to 25565 when it is missing or not a valid port number.

use vstd::prelude::*;
use vstd::string::{StringExecFns, StringSliceAdditionalSpecFns};
use vstd::utf8::{
    decode_utf8, encode_utf8, encode_utf8_decode_utf8, encode_utf8_valid_utf8,
    is_char_boundary_iff_is_leading_byte, is_leading_byte_width_1,
};

verus! {

/// The port a Minecraft server listens on unless told otherwise.
pub const DEFAULT_PORT: u16 = 25565;

/// `b[i]` is the last ':' of `b`.
pub open spec fn is_last_colon(b: Seq<u8>, i: int) -> bool {
    &&& 0 <= i < b.len()
    &&& b[i] == 58
    &&& forall|j: int| i < j < b.len() ==> #[trigger] b[j] != 58
}

/// Every byte is an ASCII digit.
pub open spec fn all_digits(s: Seq<u8>) -> bool {
    forall|j: int| 0 <= j < s.len() ==> 48 <= #[trigger] s[j] <= 57
}

/// The decimal value of a run of ASCII digits.
pub open spec fn digits_value(s: Seq<u8>) -> nat
    decreases s.len(),
{
    if s.len() == 0 {
        0
    } else {
        digits_value(s.drop_last()) * 10 + (s.last() - 48) as nat
    }
}

/// What `str::parse::<u16>` gives: an optional '+' then at least one
/// digit, of value at most 65535.
pub open spec fn parsed_u16(s: Seq<u8>) -> Option<u16> {
    let d = if s.len() > 0 && s[0] == 43 {
        s.skip(1)
    } else {
        s
    };
    if d.len() > 0 && all_digits(d) && digits_value(d) <= 65535 {
        Some(digits_value(d) as u16)
    } else {
        None
    }
}

/// The (host, port) of an address: split at the last ':' when what
/// follows it is a port number, else the whole address on the default
/// port.
pub open spec fn address_parts(addr: Seq<char>) -> (Seq<char>, u16) {
    let b = encode_utf8(addr);
    if exists|i: int| is_last_colon(b, i) {
        let i = choose|i: int| is_last_colon(b, i);
        match parsed_u16(b.subrange(i + 1, b.len() as int)) {
            Some(port) => (decode_utf8(b.take(i)), port),
            None => (addr, DEFAULT_PORT),
        }
    } else {
        (addr, DEFAULT_PORT)
    }
}

proof fn lemma_digits_value_grows(s: Seq<u8>, k: int)
    requires
        0 <= k <= s.len(),
        all_digits(s),
    ensures
        digits_value(s.take(k)) <= digits_value(s),
    decreases s.len(),
{
    if k < s.len() {
        assert(s.drop_last().take(k) =~= s.take(k));
        lemma_digits_value_grows(s.drop_last(), k);
    } else {
        assert(s.take(k) =~= s);
    }
}

/// `str::parse::<u16>` on `b[start..]`, computed digit by digit.
fn parse_port(b: &[u8], start: usize) -> (r: Option<u16>)
    requires
        start <= b@.len(),
    ensures
        r == parsed_u16(b@.subrange(start as int, b@.len() as int)),
{
    let ghost s = b@.subrange(start as int, b@.len() as int);
    let mut i = start;
    if i < b.len() && b[i] == 43 {
        i = i + 1;
    }
    let ghost d = b@.subrange(i as int, b@.len() as int);
    assert(d =~= if s.len() > 0 && s[0] == 43 {
        s.skip(1)
    } else {
        s
    });
    if i == b.len() {
        return None;
    }
    let first = i;
    let mut value: u32 = 0;
    while i < b.len()
        invariant
            first <= i <= b@.len(),
            first < b@.len(),
            d == b@.subrange(first as int, b@.len() as int),
            s == b@.subrange(start as int, b@.len() as int),
            d == if s.len() > 0 && s[0] == 43 {
                s.skip(1)
            } else {
                s
            },
            all_digits(b@.subrange(first as int, i as int)),
            value == digits_value(b@.subrange(first as int, i as int)),
            value <= 65535,
        decreases b.len() - i,
    {
        let c = b[i];
        if c < 48 || c > 57 {
            assert(d[i - first] == c);
            return None;
        }
        assert(b@.subrange(first as int, i + 1).drop_last() =~= b@.subrange(first as int, i as int));
        let next = value * 10 + (c - 48) as u32;
        if next > 65535 {
            proof {
                let t = b@.subrange(first as int, i + 1);
                if all_digits(d) {
                    assert(d.take(i + 1 - first) =~= t);
                    lemma_digits_value_grows(d, i + 1 - first);
                }
            }
            return None;
        }
        value = next;
        i = i + 1;
    }
    assert(b@.subrange(first as int, b@.len() as int) =~= d);
    Some(value as u16)
}

/// Splits `host[:port]` into host and port: at the last ':' when what
/// follows it parses as a port, otherwise the whole address with port
/// 25565.
pub fn parse_address(addr: &str) -> (r: (String, u16))
    ensures
        (r.0@, r.1) == address_parts(addr@),
{
    let b = addr.as_bytes();
    let mut i = b.len();
    while i > 0 && b[i - 1] != 58
        invariant
            b@ == addr.spec_bytes(),
            i <= b@.len(),
            forall|j: int| i <= j < b@.len() ==> #[trigger] b@[j] != 58,
        decreases i,
    {
        i = i - 1;
    }
    if i == 0 {
        assert forall|k: int| !is_last_colon(b@, k) by {
            if 0 <= k < b@.len() && b@[k] == 58 {
                assert(b@[k] != 58);
            }
        }
        return (String::from_str(addr), DEFAULT_PORT);
    }
    let colon = i - 1;
    assert(is_last_colon(b@, colon as int));
    assert forall|k: int| is_last_colon(b@, k) implies k == colon by {
        if k < colon {
            assert(b@[colon as int] != 58);
        } else if k > colon {
        }
    }
    match parse_port(b, colon + 1) {
        Some(port) => {
            proof {
                encode_utf8_valid_utf8(addr@);
                is_char_boundary_iff_is_leading_byte(b@, colon as int);
                assert(is_leading_byte_width_1(b@[colon as int]));
            }
            let (host, _) = addr.split_at(colon);
            proof {
                encode_utf8_decode_utf8(host@);
                assert(host.spec_bytes() =~= b@.take(colon as int));
            }
            (String::from_str(host), port)
        },
        None => (String::from_str(addr), DEFAULT_PORT),
    }
}

} // verus!
