//! Turning a GGUF vocabulary entry back into display text.
//!
//! Byte-level BPE vocabularies (the `gpt2` tokenizer family) spell every
//! byte as a printable character: bytes that are already printable stand
//! for themselves, and the remaining bytes are given the code points from
//! U+0100 upwards, in byte order (so a space, byte 0x20, is spelled `Ġ`,
//! U+0120). SentencePiece vocabularies (`llama`) mark word boundaries with
//! `▁` (U+2581). Decoding undoes either convention.

use std::collections::HashMap;
use vstd::prelude::*;
use vstd::utf8::*;
use crate::text::{
    char_from_u32, chars_of, encode_char, push_char, str_equal, string_from_utf8,
    string_from_utf8_lossy, utf8_lossy,
};

verus! {

/// Bytes that the byte-level alphabet spells as themselves: `!`..=`~`,
/// `¡`..=`¬` and `®`..=`ÿ`.
pub open spec fn gpt2_printable(b: int) -> bool {
    (0x21 <= b <= 0x7E) || (0xA1 <= b <= 0xAC) || (0xAE <= b <= 0xFF)
}

/// How many of the bytes below `b` are not printable.
pub open spec fn nonprintable_below(b: int) -> nat
    decreases b,
{
    if b <= 0 {
        0
    } else {
        nonprintable_below(b - 1) + if gpt2_printable(b - 1) {
            0nat
        } else {
            1nat
        }
    }
}

/// The code point that spells byte `b`: the byte itself when printable,
/// otherwise the next unused code point from 256 on, in byte order.
pub open spec fn gpt2_code_point(b: int) -> int {
    if gpt2_printable(b) {
        b
    } else {
        256 + nonprintable_below(b) as int
    }
}

/// The byte that code point `k` spells, if any.
pub open spec fn gpt2_byte_of_code(k: int) -> Option<u8> {
    if gpt2_printable(k) {
        Some(k as u8)
    } else if 256 <= k <= 288 {
        Some((k - 256) as u8)
    } else if 289 <= k <= 322 {
        Some((k - 162) as u8)
    } else if k == 323 {
        Some(0xADu8)
    } else {
        None
    }
}

/// The reverse table as a map from code point to byte.
pub open spec fn gpt2_reverse_map() -> Map<u32, u8> {
    Map::new(
        |k: u32| gpt2_byte_of_code(k as int) is Some,
        |k: u32| gpt2_byte_of_code(k as int)->0,
    )
}

proof fn lemma_nonprintable_below(b: int)
    requires
        0 <= b <= 256,
    ensures
        nonprintable_below(b) == if b <= 0x21 {
            b
        } else if b <= 0x7F {
            33
        } else if b <= 0xA1 {
            b - 94
        } else if b <= 0xAD {
            67
        } else {
            68
        },
    decreases b,
{
    if b > 0 {
        lemma_nonprintable_below(b - 1);
    }
}

/// The byte-level alphabet is a bijection between the 256 bytes and the
/// code points of the table: every byte's code point spells that byte back,
/// and every code point that spells a byte is that byte's code point.
pub proof fn lemma_gpt2_table_bijective(b: int, k: int)
    requires
        0 <= b < 256,
    ensures
        gpt2_byte_of_code(gpt2_code_point(b)) == Some(b as u8),
        gpt2_byte_of_code(k) == Some(b as u8) ==> gpt2_code_point(b) == k,
        0 <= gpt2_code_point(b) <= 323,
{
    lemma_nonprintable_below(b);
}

/// The 256-entry byte-to-character table of byte-level BPE.
pub fn gpt2_byte_to_unicode() -> (table: Vec<char>)
    ensures
        table.len() == 256,
        forall|b: int| 0 <= b < 256 ==> table@[b] as u32 == gpt2_code_point(b),
{
    let mut printable: Vec<bool> = Vec::new();
    let mut i: usize = 0;
    while i < 256
        invariant
            i <= 256,
            printable.len() == i,
            forall|k: int| 0 <= k < i ==> !printable@[k],
        decreases 256 - i,
    {
        printable.push(false);
        i = i + 1;
    }
    let mut b: usize = 0x21;
    while b <= 0x7E
        invariant
            0x21 <= b <= 0x7F,
            printable.len() == 256,
            forall|k: int| 0 <= k < 256 ==> printable@[k] == (0x21 <= k < b),
        decreases 0x7F - b,
    {
        printable.set(b, true);
        b = b + 1;
    }
    let mut b: usize = 0xA1;
    while b <= 0xAC
        invariant
            0xA1 <= b <= 0xAD,
            printable.len() == 256,
            forall|k: int| 0 <= k < 256 ==> printable@[k] == ((0x21 <= k <= 0x7E) || (0xA1 <= k < b)),
        decreases 0xAD - b,
    {
        printable.set(b, true);
        b = b + 1;
    }
    let mut b: usize = 0xAE;
    while b <= 0xFF
        invariant
            0xAE <= b <= 0x100,
            printable.len() == 256,
            forall|k: int| 0 <= k < 256 ==> printable@[k] == ((0x21 <= k <= 0x7E) || (0xA1 <= k <= 0xAC) || (0xAE <= k < b)),
        decreases 0x100 - b,
    {
        printable.set(b, true);
        b = b + 1;
    }
    let mut table: Vec<char> = Vec::new();
    let mut next_private: u32 = 0;
    let mut b: usize = 0;
    while b < 256
        invariant
            b <= 256,
            printable.len() == 256,
            forall|k: int| 0 <= k < 256 ==> printable@[k] == gpt2_printable(k),
            table.len() == b,
            next_private == nonprintable_below(b as int),
            forall|k: int| 0 <= k < b ==> table@[k] as u32 == gpt2_code_point(k),
        decreases 256 - b,
    {
        proof {
            lemma_nonprintable_below(b as int);
            lemma_nonprintable_below(b as int + 1);
        }
        let c = if printable[b] {
            char_from_u32(b as u32).unwrap()
        } else {
            let c = char_from_u32(256 + next_private).unwrap();
            next_private = next_private + 1;
            c
        };
        table.push(c);
        b = b + 1;
    }
    table
}

/// The reverse of [`gpt2_byte_to_unicode`], keyed by code point.
pub fn gpt2_unicode_to_byte() -> (m: HashMap<u32, u8>)
    ensures
        m@ == gpt2_reverse_map(),
{
    broadcast use vstd::std_specs::hash::group_hash_axioms;

    let table = gpt2_byte_to_unicode();
    let mut m: HashMap<u32, u8> = HashMap::new();
    let mut b: usize = 0;
    while b < 256
        invariant
            b <= 256,
            table.len() == 256,
            forall|k: int| 0 <= k < 256 ==> table@[k] as u32 == gpt2_code_point(k),
            m@ == Map::new(
                |k: u32| gpt2_byte_of_code(k as int) matches Some(x) && x < b,
                |k: u32| gpt2_byte_of_code(k as int)->0,
            ),
        decreases 256 - b,
    {
        let code = table[b] as u32;
        proof {
            lemma_gpt2_table_bijective(b as int, 0);
        }
        m.insert(code, b as u8);
        proof {
            assert forall|k: u32| #[trigger] m@.contains_key(k) == (gpt2_byte_of_code(k as int) matches Some(x) && x < b + 1) by {
                lemma_gpt2_table_bijective(b as int, k as int);
            }
            assert(m@ =~= Map::new(
                |k: u32| gpt2_byte_of_code(k as int) matches Some(x) && x < b + 1,
                |k: u32| gpt2_byte_of_code(k as int)->0,
            ));
        }
        b = b + 1;
    }
    assert(m@ =~= gpt2_reverse_map());
    m
}


/// The bytes a vocabulary entry stands for: each character found in
/// `reverse` (by code point) is the byte it maps to; any other character
/// (an added or special token stored literally) stands for its own UTF-8
/// encoding.
pub open spec fn byte_level_bytes(chars: Seq<char>, reverse: Map<u32, u8>) -> Seq<u8>
    decreases chars.len(),
{
    if chars.len() == 0 {
        seq![]
    } else {
        let c = chars.last();
        byte_level_bytes(chars.drop_last(), reverse) + if reverse.contains_key(c as u32) {
            seq![reverse[c as u32]]
        } else {
            encode_utf8(seq![c])
        }
    }
}

/// Text from bytes the way the decoder makes it: the exact decoding when the
/// bytes are valid UTF-8, otherwise the lossy decoding (a single piece can be
/// part of a multi-byte character that only its neighbour completes).
pub open spec fn text_of_bytes(bytes: Seq<u8>) -> Seq<char> {
    if valid_utf8(bytes) {
        decode_utf8(bytes)
    } else {
        utf8_lossy(bytes)
    }
}

/// What decoding a byte-level BPE vocabulary entry gives.
pub open spec fn spec_decode_byte_level(raw: Seq<char>, reverse: Map<u32, u8>) -> Seq<char> {
    text_of_bytes(byte_level_bytes(raw, reverse))
}

/// Decodes one byte-level BPE vocabulary entry (`gpt2` family) to text,
/// using `reverse` (normally [`gpt2_unicode_to_byte`]) to map characters
/// back to bytes.
pub fn decode_gpt2_bpe_token(raw: &str, reverse: &HashMap<u32, u8>) -> (r: String)
    ensures
        r@ == spec_decode_byte_level(raw@, reverse@),
{
    broadcast use vstd::std_specs::hash::group_hash_axioms;

    let chars = chars_of(raw);
    let mut bytes: Vec<u8> = Vec::new();
    let mut i: usize = 0;
    while i < chars.len()
        invariant
            chars@ == raw@,
            i <= chars.len(),
            bytes@ == byte_level_bytes(chars@.take(i as int), reverse@),
        decreases chars.len() - i,
    {
        let ch = chars[i];
        let ghost before = bytes@;
        match reverse.get(&(ch as u32)) {
            Some(b) => {
                bytes.push(*b);
            },
            None => {
                let enc = encode_char(ch);
                let mut j: usize = 0;
                while j < enc.len()
                    invariant
                        j <= enc.len(),
                        bytes@ == before + enc@.take(j as int),
                    decreases enc.len() - j,
                {
                    bytes.push(enc[j]);
                    j = j + 1;
                    assert(bytes@ =~= before + enc@.take(j as int));
                }
                assert(enc@.take(enc.len() as int) =~= enc@);
            },
        }
        proof {
            assert(chars@.take(i + 1).drop_last() =~= chars@.take(i as int));
            assert(chars@.take(i + 1).last() == ch);
        }
        i = i + 1;
        assert(bytes@ =~= byte_level_bytes(chars@.take(i as int), reverse@));
    }
    assert(chars@.take(chars.len() as int) =~= raw@);
    let copy = bytes.clone();
    match string_from_utf8(copy) {
        Some(s) => s,
        None => string_from_utf8_lossy(&bytes),
    }
}

/// `text` with every occurrence of `from` replaced by `to`.
pub open spec fn replace_char(text: Seq<char>, from: char, to: Seq<char>) -> Seq<char>
    decreases text.len(),
{
    if text.len() == 0 {
        seq![]
    } else {
        replace_char(text.drop_last(), from, to) + if text.last() == from {
            to
        } else {
            seq![text.last()]
        }
    }
}

/// `str::replace` with a character pattern, written out.
pub fn replace_all(text: &str, from: char, to: &str) -> (r: String)
    ensures
        r@ == replace_char(text@, from, to@),
{
    let chars = chars_of(text);
    let to_chars = chars_of(to);
    let mut r = String::new();
    let mut i: usize = 0;
    while i < chars.len()
        invariant
            chars@ == text@,
            to_chars@ == to@,
            i <= chars.len(),
            r@ == replace_char(chars@.take(i as int), from, to@),
        decreases chars.len() - i,
    {
        let ghost before = r@;
        if chars[i] == from {
            let mut j: usize = 0;
            while j < to_chars.len()
                invariant
                    j <= to_chars.len(),
                    r@ == before + to_chars@.take(j as int),
                decreases to_chars.len() - j,
            {
                push_char(&mut r, to_chars[j]);
                j = j + 1;
                assert(r@ =~= before + to_chars@.take(j as int));
            }
            assert(to_chars@.take(to_chars.len() as int) =~= to_chars@);
        } else {
            push_char(&mut r, chars[i]);
        }
        proof {
            assert(chars@.take(i + 1).drop_last() =~= chars@.take(i as int));
        }
        i = i + 1;
        assert(r@ =~= replace_char(chars@.take(i as int), from, to@));
    }
    assert(chars@.take(chars.len() as int) =~= text@);
    r
}

/// SentencePiece's word-boundary marker, `▁` (U+2581).
pub open spec fn word_boundary_marker() -> char {
    '\u{2581}'
}

/// What decoding a vocabulary entry gives for a tokenizer family: byte-level
/// decoding for `gpt2`, the word-boundary marker turned back into a space for
/// `llama`, and the entry unchanged for any other (or no) family.
pub open spec fn spec_decode_vocab_token(
    raw: Seq<char>,
    kind: Option<Seq<char>>,
    reverse: Map<u32, u8>,
) -> Seq<char> {
    match kind {
        Some(k) => if k == "gpt2"@ {
            spec_decode_byte_level(raw, reverse)
        } else if k == "llama"@ {
            replace_char(raw, word_boundary_marker(), " "@)
        } else {
            raw
        },
        None => raw,
    }
}

/// The characters of an optional string.
pub open spec fn opt_text(s: Option<&str>) -> Option<Seq<char>> {
    match s {
        Some(t) => Some(t@),
        None => None,
    }
}

/// Decodes a raw vocabulary entry into display text according to the
/// tokenizer family declared by the file.
pub fn decode_vocab_token(raw: &str, kind: Option<&str>, reverse: &HashMap<u32, u8>) -> (r: String)
    ensures
        r@ == spec_decode_vocab_token(raw@, opt_text(kind), reverse@),
{
    match kind {
        Some(k) => {
            if str_equal(k, "gpt2") {
                decode_gpt2_bpe_token(raw, reverse)
            } else if str_equal(k, "llama") {
                replace_all(raw, '\u{2581}', " ")
            } else {
                raw.to_owned()
            }
        },
        None => raw.to_owned(),
    }
}


proof fn lemma_encode_utf8_push(s: Seq<char>, c: char)
    ensures
        encode_utf8(s.push(c)) == encode_utf8(s) + encode_utf8(seq![c]),
    decreases s.len(),
{
    if s.len() == 0 {
        assert(s.push(c) =~= seq![c]);
        assert(encode_utf8(s) =~= Seq::<u8>::empty());
        assert(encode_utf8(seq![c]) =~= Seq::<u8>::empty() + encode_utf8(seq![c]));
    } else {
        lemma_encode_utf8_push(s.drop_first(), c);
        assert(s.push(c).drop_first() =~= s.drop_first().push(c));
        assert(s.push(c)[0] == s[0]);
        assert(encode_utf8(s.push(c)) =~= encode_utf8(s) + encode_utf8(seq![c]));
    }
}

/// How byte-level BPE spells a byte string: each byte as its table character.
pub open spec fn gpt2_spell(bytes: Seq<u8>) -> Seq<char> {
    Seq::new(bytes.len(), |i: int| gpt2_code_point(bytes[i] as int) as char)
}

proof fn lemma_spelled_bytes(bytes: Seq<u8>)
    ensures
        byte_level_bytes(gpt2_spell(bytes), gpt2_reverse_map()) == bytes,
    decreases bytes.len(),
{
    if bytes.len() > 0 {
        let n = bytes.len() - 1;
        lemma_spelled_bytes(bytes.drop_last());
        assert(gpt2_spell(bytes).drop_last() =~= gpt2_spell(bytes.drop_last()));
        let b = bytes[n as int];
        lemma_gpt2_table_bijective(b as int, 0);
        let k = gpt2_code_point(b as int);
        let c = gpt2_spell(bytes).last();
        assert(c == k as char);
        assert(c as u32 == k);
        assert(gpt2_reverse_map().contains_key(c as u32));
        assert(gpt2_reverse_map()[c as u32] == b);
        assert(bytes.drop_last().push(b) =~= bytes);
    }
}

/// Decoding undoes byte-level spelling: spelling the UTF-8 bytes of any text
/// with the table and decoding the result with the reverse table gives the
/// text back.
pub proof fn law_byte_level_round_trip(text: Seq<char>)
    ensures
        spec_decode_byte_level(gpt2_spell(encode_utf8(text)), gpt2_reverse_map()) == text,
{
    broadcast use encode_utf8_valid_utf8, encode_utf8_decode_utf8;

    lemma_spelled_bytes(encode_utf8(text));
}

proof fn lemma_bytes_of_literal_text(text: Seq<char>)
    requires
        forall|i: int|
            0 <= i < text.len() ==> (0x21 <= #[trigger] (text[i] as u32) <= 0x7E)
                || gpt2_byte_of_code(text[i] as u32 as int) is None,
    ensures
        byte_level_bytes(text, gpt2_reverse_map()) == encode_utf8(text),
    decreases text.len(),
{
    if text.len() > 0 {
        let c = text.last();
        assert(text.drop_last().len() == text.len() - 1);
        assert forall|i: int|
            0 <= i < text.drop_last().len() implies (0x21 <= #[trigger] (text.drop_last()[i] as u32)
            <= 0x7E) || gpt2_byte_of_code(text.drop_last()[i] as u32 as int) is None by {
            assert(text.drop_last()[i] == text[i]);
        }
        lemma_bytes_of_literal_text(text.drop_last());
        lemma_encode_utf8_push(text.drop_last(), c);
        assert(text.drop_last().push(c) =~= text);
        if 0x21 <= c as u32 <= 0x7E {
            reveal_with_fuel(encode_utf8, 2);
            assert(seq![c].drop_first() =~= Seq::<char>::empty());
            assert(encode_utf8(seq![c]) =~= seq![(c as u32 & 0x7F) as u8]);
            let v = c as u32;
            assert((v & 0x7F) == v) by (bit_vector)
                requires
                    0x21 <= v <= 0x7E,
            ;
            assert(gpt2_reverse_map()[c as u32] == c as u32 as u8);
        }
    }
}

/// Text made only of printable ASCII characters (which spell themselves)
/// and of characters the table does not use at all (added or special tokens
/// stored literally, such as `<|im_start|>` or `β`) decodes to itself.
pub proof fn law_literal_text_unchanged(text: Seq<char>)
    requires
        forall|i: int|
            0 <= i < text.len() ==> (0x21 <= #[trigger] (text[i] as u32) <= 0x7E)
                || gpt2_byte_of_code(text[i] as u32 as int) is None,
    ensures
        spec_decode_byte_level(text, gpt2_reverse_map()) == text,
{
    broadcast use encode_utf8_valid_utf8, encode_utf8_decode_utf8;

    lemma_bytes_of_literal_text(text);
}

} // verus!
