//! The fixed 24-byte GGUF header: magic, version, tensor count and
//! metadata entry count, all little-endian.

use vstd::prelude::*;
use crate::text::{decimal, push_decimal, push_str};

verus! {

/// The four magic bytes every GGUF file starts with: `b"GGUF"`.
pub open spec fn gguf_magic() -> Seq<u8> {
    seq![0x47u8, 0x47u8, 0x55u8, 0x46u8]
}

/// Little-endian value of a byte sequence (least significant byte first).
pub open spec fn le_value(bytes: Seq<u8>) -> nat
    decreases bytes.len(),
{
    if bytes.len() == 0 {
        0
    } else {
        bytes[0] as nat + 256 * le_value(bytes.drop_first())
    }
}

/// The little-endian value of the `width` bytes of `bytes` starting at `pos`,
/// or `None` when fewer than `width` bytes remain there.
pub open spec fn le_field(bytes: Seq<u8>, pos: int, width: int) -> Option<nat> {
    if 0 <= pos && pos + width <= bytes.len() {
        Some(le_value(bytes.subrange(pos, pos + width)))
    } else {
        None
    }
}

#[derive(Debug, PartialEq, Eq, Clone, Copy)]
pub struct GgufHeader {
    pub version: u32,
    pub tensor_count: u64,
    pub metadata_kv_count: u64,
}

/// Why a byte prefix is not an acceptable GGUF header.
#[derive(Debug, PartialEq, Eq, Clone, Copy)]
pub enum HeaderError {
    /// Fewer than the four magic bytes.
    TruncatedMagic,
    /// The first four bytes are not `GGUF`.
    NotGguf,
    /// The version field is cut short.
    TruncatedVersion,
    /// A version other than 2 or 3.
    UnsupportedVersion(u32),
    /// The tensor count field is cut short.
    TruncatedTensorCount,
    /// The metadata entry count field is cut short.
    TruncatedMetadataCount,
}

/// How a header error reads.
pub open spec fn header_error_message(e: HeaderError) -> Seq<char> {
    match e {
        HeaderError::TruncatedMagic => "truncated GGUF magic"@,
        HeaderError::NotGguf => "not a GGUF file: expected GGUF magic bytes"@,
        HeaderError::TruncatedVersion => "truncated GGUF version"@,
        HeaderError::UnsupportedVersion(v) => "unsupported GGUF version "@ + decimal(v as nat)
            + "; inferra supports v2 and v3"@,
        HeaderError::TruncatedTensorCount => "truncated GGUF tensor count"@,
        HeaderError::TruncatedMetadataCount => "truncated GGUF metadata count"@,
    }
}

impl HeaderError {
    /// How the error reads.
    pub fn message(&self) -> (r: String)
        ensures
            r@ == header_error_message(*self),
    {
        match self {
            HeaderError::TruncatedMagic => String::from_str("truncated GGUF magic"),
            HeaderError::NotGguf => String::from_str("not a GGUF file: expected GGUF magic bytes"),
            HeaderError::TruncatedVersion => String::from_str("truncated GGUF version"),
            HeaderError::UnsupportedVersion(v) => {
                let mut r = String::from_str("unsupported GGUF version ");
                push_decimal(&mut r, *v as u64);
                push_str(&mut r, "; inferra supports v2 and v3");
                r
            },
            HeaderError::TruncatedTensorCount => String::from_str("truncated GGUF tensor count"),
            HeaderError::TruncatedMetadataCount => String::from_str("truncated GGUF metadata count"),
        }
    }
}

/// Only GGUF versions 2 and 3 are read.
pub open spec fn supported_version(version: nat) -> bool {
    version == 2 || version == 3
}

/// What reading a header from `bytes` gives: the checks are made in file
/// order, so the first field that is missing or wrong decides the error.
pub open spec fn spec_read_header(bytes: Seq<u8>) -> Result<GgufHeader, HeaderError> {
    if bytes.len() < 4 {
        Err(HeaderError::TruncatedMagic)
    } else if bytes.subrange(0, 4) != gguf_magic() {
        Err(HeaderError::NotGguf)
    } else if bytes.len() < 8 {
        Err(HeaderError::TruncatedVersion)
    } else if !supported_version(le_value(bytes.subrange(4, 8))) {
        Err(HeaderError::UnsupportedVersion(le_value(bytes.subrange(4, 8)) as u32))
    } else if bytes.len() < 16 {
        Err(HeaderError::TruncatedTensorCount)
    } else if bytes.len() < 24 {
        Err(HeaderError::TruncatedMetadataCount)
    } else {
        Ok(
            GgufHeader {
                version: le_value(bytes.subrange(4, 8)) as u32,
                tensor_count: le_value(bytes.subrange(8, 16)) as u64,
                metadata_kv_count: le_value(bytes.subrange(16, 24)) as u64,
            },
        )
    }
}

proof fn lemma_le_value_4(s: Seq<u8>)
    requires
        s.len() == 4,
    ensures
        le_value(s) == s[0] + 256 * s[1] + 65536 * s[2] + 16777216 * s[3],
        le_value(s) < 0x1_0000_0000,
{
    reveal_with_fuel(le_value, 5);
    assert(s.drop_first().drop_first().drop_first().drop_first().len() == 0);
}

proof fn lemma_le_value_8(s: Seq<u8>)
    requires
        s.len() == 8,
    ensures
        le_value(s) == s[0] + 256 * s[1] + 65536 * s[2] + 16777216 * s[3] + 0x1_0000_0000 * s[4]
            + 0x100_0000_0000 * s[5] + 0x1_0000_0000_0000 * s[6] + 0x100_0000_0000_0000 * s[7],
        le_value(s) < 0x1_0000_0000_0000_0000,
{
    reveal_with_fuel(le_value, 9);
    let t = s.drop_first().drop_first().drop_first().drop_first();
    assert(t.drop_first().drop_first().drop_first().drop_first().len() == 0);
}

/// Reads the little-endian `u32` at `pos`, or `None` when the bytes run out.
pub fn read_u32_le(bytes: &[u8], pos: usize) -> (r: Option<u32>)
    ensures
        match le_field(bytes@, pos as int, 4) {
            Some(v) => r == Some(v as u32) && v <= u32::MAX,
            None => r is None,
        },
{
    if pos > bytes.len() || bytes.len() - pos < 4 {
        return None;
    }
    let ghost s = bytes@.subrange(pos as int, pos + 4);
    proof {
        lemma_le_value_4(s);
    }
    let v: u32 = bytes[pos] as u32 + 256 * (bytes[pos + 1] as u32) + 65536 * (bytes[pos + 2] as u32)
        + 16777216 * (bytes[pos + 3] as u32);
    Some(v)
}

/// Reads the little-endian `u64` at `pos`, or `None` when the bytes run out.
pub fn read_u64_le(bytes: &[u8], pos: usize) -> (r: Option<u64>)
    ensures
        match le_field(bytes@, pos as int, 8) {
            Some(v) => r == Some(v as u64) && v <= u64::MAX,
            None => r is None,
        },
{
    if pos > bytes.len() || bytes.len() - pos < 8 {
        return None;
    }
    let ghost s = bytes@.subrange(pos as int, pos + 8);
    proof {
        lemma_le_value_8(s);
    }
    let v: u64 = bytes[pos] as u64 + 256 * (bytes[pos + 1] as u64) + 65536 * (bytes[pos + 2] as u64)
        + 16777216 * (bytes[pos + 3] as u64) + 0x1_0000_0000 * (bytes[pos + 4] as u64)
        + 0x100_0000_0000 * (bytes[pos + 5] as u64) + 0x1_0000_0000_0000 * (bytes[pos + 6] as u64)
        + 0x100_0000_0000_0000 * (bytes[pos + 7] as u64);
    Some(v)
}

/// Reads the GGUF header from the first bytes of a file. Bytes after the
/// 24-byte header are ignored.
pub fn read_header_from(bytes: &[u8]) -> (r: Result<GgufHeader, HeaderError>)
    ensures
        r == spec_read_header(bytes@),
{
    if bytes.len() < 4 {
        return Err(HeaderError::TruncatedMagic);
    }
    if !(bytes[0] == 0x47 && bytes[1] == 0x47 && bytes[2] == 0x55 && bytes[3] == 0x46) {
        assert(bytes@.subrange(0, 4) != gguf_magic()) by {
            if bytes@.subrange(0, 4) == gguf_magic() {
                assert(bytes@.subrange(0, 4)[0] == bytes@[0]);
                assert(bytes@.subrange(0, 4)[1] == bytes@[1]);
                assert(bytes@.subrange(0, 4)[2] == bytes@[2]);
                assert(bytes@.subrange(0, 4)[3] == bytes@[3]);
            }
        }
        return Err(HeaderError::NotGguf);
    }
    assert(bytes@.subrange(0, 4) =~= gguf_magic());
    let version = match read_u32_le(bytes, 4) {
        Some(v) => v,
        None => return Err(HeaderError::TruncatedVersion),
    };
    if !(version == 2 || version == 3) {
        return Err(HeaderError::UnsupportedVersion(version));
    }
    let tensor_count = match read_u64_le(bytes, 8) {
        Some(v) => v,
        None => return Err(HeaderError::TruncatedTensorCount),
    };
    let metadata_kv_count = match read_u64_le(bytes, 16) {
        Some(v) => v,
        None => return Err(HeaderError::TruncatedMetadataCount),
    };
    Ok(GgufHeader { version, tensor_count, metadata_kv_count })
}


/// The `n` little-endian bytes of `v` (least significant first).
pub open spec fn le_bytes(v: nat, n: nat) -> Seq<u8>
    decreases n,
{
    if n == 0 {
        seq![]
    } else {
        seq![(v % 256) as u8] + le_bytes(v / 256, (n - 1) as nat)
    }
}

/// The `n` little-endian bytes of a `v` that fits in them read back as `v`.
pub proof fn lemma_le_round_trip(v: nat, n: nat)
    requires
        v < vstd::arithmetic::power::pow(256, n),
    ensures
        le_bytes(v, n).len() == n,
        le_value(le_bytes(v, n)) == v,
    decreases n,
{
    vstd::arithmetic::power::lemma_pow_positive(256, n);
    if n == 0 {
        vstd::arithmetic::power::lemma_pow0(256);
    } else {
        vstd::arithmetic::power::lemma_pow_adds(256, 1, (n - 1) as nat);
        vstd::arithmetic::power::lemma_pow1(256);
        vstd::arithmetic::div_mod::lemma_fundamental_div_mod(v as int, 256);
        vstd::arithmetic::div_mod::lemma_div_pos_is_pos(v as int, 256);
        let p = vstd::arithmetic::power::pow(256, (n - 1) as nat);
        assert((v as int / 256) < p) by {
            vstd::arithmetic::div_mod::lemma_div_by_multiple_is_strongly_ordered(
                v as int, 256 * p, p, 256);
        }
        lemma_le_round_trip(v / 256, (n - 1) as nat);
        let s = le_bytes(v, n);
        assert(s.drop_first() =~= le_bytes(v / 256, (n - 1) as nat));
    }
}

/// The 24 header bytes of `h`.
pub open spec fn encode_header(h: GgufHeader) -> Seq<u8> {
    gguf_magic() + le_bytes(h.version as nat, 4) + le_bytes(h.tensor_count as nat, 8) + le_bytes(
        h.metadata_kv_count as nat,
        8,
    )
}

/// Reading gives back the header that was written, whatever follows it in
/// the file, for the supported versions 2 and 3.
pub proof fn law_header_round_trip(h: GgufHeader, rest: Seq<u8>)
    requires
        supported_version(h.version as nat),
    ensures
        spec_read_header(encode_header(h) + rest) == Ok::<GgufHeader, HeaderError>(h),
{
    vstd::arithmetic::power::lemma_pow_positive(256, 4);
    assert(vstd::arithmetic::power::pow(256, 4) == 0x1_0000_0000) by {
        reveal_with_fuel(vstd::arithmetic::power::pow, 5);
    }
    assert(vstd::arithmetic::power::pow(256, 8) == 0x1_0000_0000_0000_0000) by {
        vstd::arithmetic::power::lemma_pow_adds(256, 4, 4);
    }
    lemma_le_round_trip(h.version as nat, 4);
    lemma_le_round_trip(h.tensor_count as nat, 8);
    lemma_le_round_trip(h.metadata_kv_count as nat, 8);
    let b = encode_header(h) + rest;
    assert(b.subrange(0, 4) =~= gguf_magic());
    assert(b.subrange(4, 8) =~= le_bytes(h.version as nat, 4));
    assert(b.subrange(8, 16) =~= le_bytes(h.tensor_count as nat, 8));
    assert(b.subrange(16, 24) =~= le_bytes(h.metadata_kv_count as nat, 8));
}

/// Anything of at least four bytes that does not start with `GGUF` is
/// refused as not a GGUF file.
pub proof fn law_rejects_other_magic(bytes: Seq<u8>)
    requires
        bytes.len() >= 4,
        bytes.subrange(0, 4) != gguf_magic(),
    ensures
        spec_read_header(bytes) == Err::<GgufHeader, HeaderError>(HeaderError::NotGguf),
{
}

} // verus!
