//! The download cache's naming and checks: a pack's zip is stored as
//! `<slug>-<first 12 characters of its SHA-1>.zip`, and a download is
//! accepted only when its SHA-1 matches the one Modrinth reported.

use sha1::{Digest, Sha1};
use vstd::prelude::*;
use vstd::string::{StringExecFns, StringSliceAdditionalSpecFns};
use vstd::utf8::{decode_utf8, encode_utf8, encode_utf8_decode_utf8, is_char_boundary};

use crate::text::{eq_ignore_ascii_case, str_eq_ignore_ascii_case};
use crate::texturepacks::error::TexturePackError;
use crate::texturepacks::modrinth::VersionFile;

verus! {

/// The SHA-1 digest (20 bytes) of `bytes`.
pub uninterp spec fn sha1_of(bytes: Seq<u8>) -> Seq<u8>;

/// `sha1::Sha1`: hashes `bytes` with `new`, `update` and `finalize`.
/// The contract claims that the result is the SHA-1 digest of the bytes
/// (named `sha1_of`) and that it is 20 bytes long, as the crate's
/// output size says.
#[verifier::external_body]
fn sha1_digest(bytes: &[u8]) -> (d: Vec<u8>)
    ensures
        d@ == sha1_of(bytes@),
        d@.len() == 20,
{
    let mut hasher = Sha1::new();
    hasher.update(bytes);
    hasher.finalize().to_vec()
}

/// `String::push`: appends one character.
pub assume_specification[ String::push ](s: &mut String, ch: char)
    ensures
        final(s)@ == old(s)@.push(ch),
;

/// The lowercase hex digit of `d` (below 16).
pub open spec fn hex_digit(d: int) -> char {
    if d < 10 {
        (48 + d) as char
    } else {
        (87 + d) as char
    }
}

/// Two lowercase hex digits per byte, high digit first.
pub open spec fn hex_string(bytes: Seq<u8>) -> Seq<char>
    decreases bytes.len(),
{
    if bytes.len() == 0 {
        Seq::empty()
    } else {
        hex_string(bytes.drop_last()) + seq![
            hex_digit(bytes.last() as int / 16),
            hex_digit(bytes.last() as int % 16),
        ]
    }
}

fn hex_char(d: u8) -> (c: char)
    requires
        d < 16,
    ensures
        c == hex_digit(d as int),
{
    if d < 10 {
        (48 + d) as char
    } else {
        (87 + d) as char
    }
}

/// Lowercase hex encoding of `bytes`.
pub fn encode(bytes: &[u8]) -> (s: String)
    ensures
        s@ == hex_string(bytes@),
{
    let mut out = String::new();
    let mut i: usize = 0;
    while i < bytes.len()
        invariant
            i <= bytes@.len(),
            out@ == hex_string(bytes@.take(i as int)),
        decreases bytes.len() - i,
    {
        let b = bytes[i];
        out.push(hex_char(b / 16));
        out.push(hex_char(b % 16));
        assert(bytes@.take(i + 1).drop_last() =~= bytes@.take(i as int));
        i = i + 1;
    }
    assert(bytes@.take(bytes@.len() as int) =~= bytes@);
    out
}

/// The lowercase hex SHA-1 of `bytes` (40 characters).
pub fn hex_sha1(bytes: &[u8]) -> (s: String)
    ensures
        s@ == hex_string(sha1_of(bytes@)),
{
    let digest = sha1_digest(bytes);
    encode(digest.as_slice())
}

/// How many bytes of a cache key go into the file name: the first 12,
/// or all of a shorter key.
pub open spec fn short_key_len(key: Seq<char>) -> int {
    if encode_utf8(key).len() < 12 {
        encode_utf8(key).len() as int
    } else {
        12
    }
}

/// The cached file's name: `<slug>-<short key>.zip`, the short key
/// being the characters of the key's first `short_key_len` bytes.
pub open spec fn cached_zip_name_spec(slug: Seq<char>, key: Seq<char>) -> Seq<char> {
    slug + "-"@ + decode_utf8(encode_utf8(key).take(short_key_len(key))) + ".zip"@
}

/// The name a pack's zip is cached under. The key is cut after its
/// first 12 bytes, which must fall on a character boundary (it always
/// does for a hex hash; cutting a string inside a character panics).
pub fn cached_zip_name(slug: &str, key: &str) -> (name: String)
    requires
        key.spec_bytes().len() <= usize::MAX,
        is_char_boundary(key.spec_bytes(), short_key_len(key@)),
    ensures
        name@ == cached_zip_name_spec(slug@, key@),
{
    let m: usize = if key.len() < 12 {
        key.len()
    } else {
        12
    };
    let (short, _) = key.split_at(m);
    proof {
        encode_utf8_decode_utf8(short@);
        assert(encode_utf8(key@).take(m as int) =~= short.spec_bytes());
    }
    let mut name = String::from_str(slug);
    name.append("-");
    name.append(short);
    name.append(".zip");
    name
}

/// The key a file is cached under: the SHA-1 Modrinth reported for it,
/// or its file name when there is none.
pub open spec fn cache_key(file: &VersionFile) -> Seq<char> {
    match file.hashes.sha1 {
        Some(h) => h@,
        None => file.filename@,
    }
}

/// The name `file` of project `slug` is cached under.
pub fn cache_file_name(slug: &str, file: &VersionFile) -> (name: String)
    requires
        encode_utf8(cache_key(file)).len() <= usize::MAX,
        is_char_boundary(encode_utf8(cache_key(file)), short_key_len(cache_key(file))),
    ensures
        name@ == cached_zip_name_spec(slug@, cache_key(file)),
{
    match &file.hashes.sha1 {
        Some(h) => cached_zip_name(slug, h.as_str()),
        None => cached_zip_name(slug, file.filename.as_str()),
    }
}

/// Checks a download against the SHA-1 Modrinth reported for it (in
/// either letter case); a file with no reported hash is accepted.
pub fn check_download(file: &VersionFile, bytes: &[u8]) -> (r: Result<(), TexturePackError>)
    ensures
        match file.hashes.sha1 {
            None => r is Ok,
            Some(expected) => if eq_ignore_ascii_case(
                encode_utf8(hex_string(sha1_of(bytes@))),
                encode_utf8(expected@),
            ) {
                r is Ok
            } else {
                r matches Err(TexturePackError::HashMismatch { expected: e, actual: a }) && e@
                    == expected@ && a@ == hex_string(sha1_of(bytes@))
            },
        },
{
    match &file.hashes.sha1 {
        None => Ok(()),
        Some(expected) => {
            let actual = hex_sha1(bytes);
            if str_eq_ignore_ascii_case(actual.as_str(), expected.as_str()) {
                Ok(())
            } else {
                Err(TexturePackError::HashMismatch { expected: expected.clone(), actual })
            }
        },
    }
}

} // verus!
