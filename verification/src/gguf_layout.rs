//! The layout of a whole GGUF file, walked without building anything: the
//! header, every metadata entry and every tensor descriptor, each length it
//! declares checked against the bytes that are left. A file passes when the
//! walk reaches the end of the tensor descriptors, no array nests deeper than
//! [`MAX_NESTING`], no `general.alignment` entry holds an integer zero, and
//! the file is not so large that its lengths could overflow an allocation.

use vstd::prelude::*;
use crate::gguf_header::{gguf_magic, le_bytes, le_field, le_value, lemma_le_round_trip, read_u32_le, read_u64_le};

verus! {

/// How deeply arrays may nest inside a metadata value.
pub const MAX_NESTING: usize = 16;

/// The longest file whose declared lengths are walked.
pub open spec fn max_file_len() -> int {
    isize::MAX as int / 64
}

/// Width of a length or count field: eight bytes from version 2 on, four in
/// version 1.
pub open spec fn width(wide: bool) -> int {
    if wide {
        8
    } else {
        4
    }
}

/// Bytes taken by a fixed-size value of type `ty`: `u8`, `i8`, `u16`, `i16`,
/// `u32`, `i32`, `f32`, `bool`, then (after string and array) `u64`, `i64`,
/// `f64`.
pub open spec fn scalar_size(ty: nat) -> int {
    if ty == 0 || ty == 1 || ty == 7 {
        1
    } else if ty == 2 || ty == 3 {
        2
    } else if ty == 4 || ty == 5 || ty == 6 {
        4
    } else {
        8
    }
}

/// The end of the length-prefixed string at `pos`, when its length field is
/// there and the string fits in the bytes that are left.
pub open spec fn string_end(b: Seq<u8>, pos: int, wide: bool) -> Option<int> {
    match le_field(b, pos, width(wide)) {
        Some(n) => if n <= b.len() - (pos + width(wide)) {
            Some(pos + width(wide) + n)
        } else {
            None
        },
        None => None,
    }
}

/// The end of the value of type `ty` at `pos`, arrays allowed to nest
/// `depth` more levels; `None` where the value does not fit, its type is
/// unknown, an array declares more items than there are bytes left, or
/// arrays nest too deeply.
pub open spec fn value_end(b: Seq<u8>, pos: int, ty: nat, wide: bool, depth: nat) -> Option<int>
    decreases depth, 1nat, 0nat,
{
    if ty == 8 {
        string_end(b, pos, wide)
    } else if ty == 9 {
        if depth == 0 {
            None
        } else {
            match (le_field(b, pos, 4), le_field(b, pos + 4, width(wide))) {
                (Some(item_ty), Some(n)) => if item_ty <= 12 && n <= b.len() - (pos + 4 + width(wide)) {
                    items_end(b, pos + 4 + width(wide), item_ty, n, wide, (depth - 1) as nat)
                } else {
                    None
                },
                _ => None,
            }
        }
    } else if ty <= 12 {
        if 0 <= pos && pos + scalar_size(ty) <= b.len() {
            Some(pos + scalar_size(ty))
        } else {
            None
        }
    } else {
        None
    }
}

/// The end of `n` values of type `ty` stored back to back from `pos`.
pub open spec fn items_end(b: Seq<u8>, pos: int, ty: nat, n: nat, wide: bool, depth: nat) -> Option<int>
    decreases depth, 2nat, n,
{
    if n == 0 {
        Some(pos)
    } else {
        match value_end(b, pos, ty, wide, depth) {
            Some(p) => items_end(b, p, ty, (n - 1) as nat, wide, depth),
            None => None,
        }
    }
}

/// The bytes of the key `general.alignment`.
pub open spec fn alignment_key() -> Seq<u8> {
    seq![103u8, 101, 110, 101, 114, 97, 108, 46, 97, 108, 105, 103, 110, 109, 101, 110, 116]
}

/// Whether a key's bytes read `general.alignment` once trailing zero bytes
/// are dropped.
pub open spec fn is_alignment_key(k: Seq<u8>) -> bool {
    &&& k.len() >= 17
    &&& k.subrange(0, 17) == alignment_key()
    &&& forall|i: int| 17 <= i < k.len() ==> k[i] == 0
}

/// The end of the metadata entry at `pos`: key, value type, value; `None`
/// also where the key is `general.alignment` and the value an integer zero
/// of one of the types an alignment is read from.
pub open spec fn entry_end(b: Seq<u8>, pos: int, wide: bool) -> Option<int> {
    match string_end(b, pos, wide) {
        Some(k) => match le_field(b, k, 4) {
            Some(ty) => if is_alignment_key(b.subrange(pos + width(wide), k)) && ty <= 5 && le_field(
                b,
                k + 4,
                scalar_size(ty),
            ) == Some(0nat) {
                None
            } else {
                value_end(b, k + 4, ty, wide, MAX_NESTING as nat)
            },
            None => None,
        },
        None => None,
    }
}

/// The end of `n` metadata entries from `pos`.
pub open spec fn entries_end(b: Seq<u8>, pos: int, n: nat, wide: bool) -> Option<int>
    decreases n,
{
    if n == 0 {
        Some(pos)
    } else {
        match entry_end(b, pos, wide) {
            Some(p) => entries_end(b, p, (n - 1) as nat, wide),
            None => None,
        }
    }
}

/// The end of the tensor descriptor at `pos`: name, dimension count,
/// dimensions, type and offset.
pub open spec fn descriptor_end(b: Seq<u8>, pos: int, wide: bool) -> Option<int> {
    match string_end(b, pos, wide) {
        Some(k) => match le_field(b, k, 4) {
            Some(nd) => if nd * width(wide) + 12 <= b.len() - (k + 4) {
                Some(k + 4 + nd * width(wide) + 12)
            } else {
                None
            },
            None => None,
        },
        None => None,
    }
}

/// The end of `n` tensor descriptors from `pos`.
pub open spec fn descriptors_end(b: Seq<u8>, pos: int, n: nat, wide: bool) -> Option<int>
    decreases n,
{
    if n == 0 {
        Some(pos)
    } else {
        match descriptor_end(b, pos, wide) {
            Some(p) => descriptors_end(b, p, (n - 1) as nat, wide),
            None => None,
        }
    }
}

/// Whether the whole layout of the file checks out (see the module
/// documentation).
pub open spec fn layout_sound(b: Seq<u8>) -> bool {
    &&& b.len() <= max_file_len()
    &&& match (le_field(b, 0, 4), le_field(b, 4, 4)) {
        (Some(magic), Some(version)) => {
            let wide = version != 1;
            let w = width(wide);
            &&& magic == 0x46554747 || magic == 0x47475546
            &&& 1 <= version <= 3
            &&& match (le_field(b, 8, w), le_field(b, 8 + w, w)) {
                (Some(n_tensors), Some(n_entries)) => match entries_end(b, 8 + 2 * w, n_entries, wide) {
                    Some(p) => descriptors_end(b, p, n_tensors, wide) is Some,
                    None => false,
                },
                _ => false,
            }
        },
        _ => false,
    }
}

/// A GGUF string as written from version 2 on: its length in eight
/// little-endian bytes, then its bytes.
pub open spec fn enc_string(s: Seq<u8>) -> Seq<u8> {
    le_bytes(s.len(), 8) + s
}

/// Strings written one after the other.
pub open spec fn enc_strings(ss: Seq<Seq<u8>>) -> Seq<u8>
    decreases ss.len(),
{
    if ss.len() == 0 {
        seq![]
    } else {
        enc_string(ss[0]) + enc_strings(ss.drop_first())
    }
}

/// Byte strings written one after the other.
pub open spec fn concat(parts: Seq<Seq<u8>>) -> Seq<u8>
    decreases parts.len(),
{
    if parts.len() == 0 {
        seq![]
    } else {
        parts[0] + concat(parts.drop_first())
    }
}

/// Whether `ty` names a fixed-size value type.
pub open spec fn is_scalar_type(ty: nat) -> bool {
    ty <= 12 && ty != 8 && ty != 9
}

/// A metadata value as it can be written: a fixed-size value (its raw
/// bytes), a string, an array of strings, or an array of fixed-size values.
pub enum ValueLayout {
    Scalar { ty: nat, raw: Seq<u8> },
    Text { text: Seq<u8> },
    TextArray { texts: Seq<Seq<u8>> },
    ScalarArray { item_ty: nat, raws: Seq<Seq<u8>> },
}

/// The type tag written before a value.
pub open spec fn value_type(v: ValueLayout) -> nat {
    match v {
        ValueLayout::Scalar { ty, .. } => ty,
        ValueLayout::Text { .. } => 8,
        _ => 9,
    }
}

/// The bytes of a value after its type tag.
pub open spec fn enc_value(v: ValueLayout) -> Seq<u8> {
    match v {
        ValueLayout::Scalar { raw, .. } => raw,
        ValueLayout::Text { text } => enc_string(text),
        ValueLayout::TextArray { texts } => le_bytes(8, 4) + le_bytes(texts.len(), 8) + enc_strings(texts),
        ValueLayout::ScalarArray { item_ty, raws } => le_bytes(item_ty, 4) + le_bytes(raws.len(), 8) + concat(raws),
    }
}

/// A value whose fixed-size parts have their type's size.
pub open spec fn value_ok(v: ValueLayout) -> bool {
    match v {
        ValueLayout::Scalar { ty, raw } => is_scalar_type(ty) && raw.len() == scalar_size(ty),
        ValueLayout::ScalarArray { item_ty, raws } => is_scalar_type(item_ty) && forall|i: int|
            0 <= i < raws.len() ==> (#[trigger] raws[i]).len() == scalar_size(item_ty),
        _ => true,
    }
}

/// A metadata entry as written: key, type tag, value.
pub open spec fn enc_entry(e: (Seq<u8>, ValueLayout)) -> Seq<u8> {
    enc_string(e.0) + le_bytes(value_type(e.1), 4) + enc_value(e.1)
}

/// A well-formed entry whose alignment, if it is `general.alignment` with
/// an integer value, is not zero.
pub open spec fn entry_ok(e: (Seq<u8>, ValueLayout)) -> bool {
    &&& value_ok(e.1)
    &&& (is_alignment_key(e.0) && value_type(e.1) <= 5) ==> le_value(e.1->raw) != 0
}

/// Entries written one after the other.
pub open spec fn enc_entries(es: Seq<(Seq<u8>, ValueLayout)>) -> Seq<u8>
    decreases es.len(),
{
    if es.len() == 0 {
        seq![]
    } else {
        enc_entry(es[0]) + enc_entries(es.drop_first())
    }
}

/// A tensor descriptor as written: name, dimension count, the dimensions'
/// bytes, then the twelve bytes of type and offset.
pub open spec fn enc_descriptor(t: (Seq<u8>, nat, Seq<u8>, Seq<u8>)) -> Seq<u8> {
    enc_string(t.0) + le_bytes(t.1, 4) + t.2 + t.3
}

/// A descriptor with eight bytes per dimension and twelve after them.
pub open spec fn descriptor_ok(t: (Seq<u8>, nat, Seq<u8>, Seq<u8>)) -> bool {
    t.1 <= u32::MAX && t.2.len() == 8 * t.1 && t.3.len() == 12
}

/// Descriptors written one after the other.
pub open spec fn enc_descriptors(ts: Seq<(Seq<u8>, nat, Seq<u8>, Seq<u8>)>) -> Seq<u8>
    decreases ts.len(),
{
    if ts.len() == 0 {
        seq![]
    } else {
        enc_descriptor(ts[0]) + enc_descriptors(ts.drop_first())
    }
}

/// A whole file as written, version 2 or 3: magic, version, counts,
/// entries, descriptors, and whatever follows (alignment padding, tensor
/// data).
pub open spec fn enc_file(
    version: nat,
    entries: Seq<(Seq<u8>, ValueLayout)>,
    tensors: Seq<(Seq<u8>, nat, Seq<u8>, Seq<u8>)>,
    rest: Seq<u8>,
) -> Seq<u8> {
    gguf_magic() + le_bytes(version, 4) + le_bytes(tensors.len(), 8) + le_bytes(entries.len(), 8) + enc_entries(
        entries,
    ) + enc_descriptors(tensors) + rest
}

/// `x` is found in `b` at `pos`.
pub open spec fn at(b: Seq<u8>, pos: int, x: Seq<u8>) -> bool {
    0 <= pos && pos + x.len() <= b.len() && b.subrange(pos, pos + x.len()) == x
}

proof fn lemma_at_split(b: Seq<u8>, pos: int, x: Seq<u8>, y: Seq<u8>)
    requires
        at(b, pos, x + y),
    ensures
        at(b, pos, x),
        at(b, pos + x.len(), y),
{
    assert forall|k: int| 0 <= k < x.len() implies b.subrange(pos, pos + x.len())[k] == x[k] by {
        assert(b.subrange(pos, pos + (x + y).len())[k] == (x + y)[k]);
    }
    assert(b.subrange(pos, pos + x.len()) =~= x);
    assert forall|k: int| 0 <= k < y.len() implies b.subrange(pos + x.len(), pos + x.len() + y.len())[k] == y[k] by {
        assert(b.subrange(pos, pos + (x + y).len())[x.len() + k] == (x + y)[x.len() + k]);
    }
    assert(b.subrange(pos + x.len(), pos + x.len() + y.len()) =~= y);
}

proof fn lemma_le_bytes_len(v: nat, n: nat)
    ensures
        le_bytes(v, n).len() == n,
    decreases n,
{
    if n > 0 {
        lemma_le_bytes_len(v / 256, (n - 1) as nat);
    }
}

proof fn lemma_pow_facts()
    ensures
        vstd::arithmetic::power::pow(256, 4) == 0x1_0000_0000,
        vstd::arithmetic::power::pow(256, 8) == 0x1_0000_0000_0000_0000,
        max_file_len() < 0x1_0000_0000_0000_0000,
{
    assert(vstd::arithmetic::power::pow(256, 4) == 0x1_0000_0000) by {
        reveal_with_fuel(vstd::arithmetic::power::pow, 5);
    }
    vstd::arithmetic::power::lemma_pow_adds(256, 4, 4);
}

proof fn lemma_field(b: Seq<u8>, pos: int, v: nat, w: nat)
    requires
        at(b, pos, le_bytes(v, w)),
        v < vstd::arithmetic::power::pow(256, w),
    ensures
        le_field(b, pos, w as int) == Some(v),
        le_bytes(v, w).len() == w,
{
    lemma_le_round_trip(v, w);
}

proof fn lemma_string(b: Seq<u8>, pos: int, s: Seq<u8>)
    requires
        at(b, pos, enc_string(s)),
        b.len() <= max_file_len(),
    ensures
        string_end(b, pos, true) == Some(pos + enc_string(s).len()),
        enc_string(s).len() == 8 + s.len(),
{
    lemma_pow_facts();
    lemma_at_split(b, pos, le_bytes(s.len(), 8), s);
    lemma_field(b, pos, s.len(), 8);
}

proof fn lemma_strings(b: Seq<u8>, pos: int, ss: Seq<Seq<u8>>, depth: nat)
    requires
        at(b, pos, enc_strings(ss)),
        b.len() <= max_file_len(),
    ensures
        items_end(b, pos, 8, ss.len(), true, depth) == Some(pos + enc_strings(ss).len()),
        enc_strings(ss).len() >= ss.len(),
    decreases ss.len(),
{
    if ss.len() > 0 {
        let next = pos + enc_string(ss[0]).len();
        lemma_at_split(b, pos, enc_string(ss[0]), enc_strings(ss.drop_first()));
        lemma_string(b, pos, ss[0]);
        lemma_strings(b, next, ss.drop_first(), depth);
        assert(value_end(b, pos, 8, true, depth) == Some(next));
        assert(items_end(b, pos, 8, ss.len(), true, depth) == items_end(
            b,
            next,
            8,
            ss.drop_first().len(),
            true,
            depth,
        ));
    }
}

proof fn lemma_scalars(b: Seq<u8>, pos: int, ty: nat, raws: Seq<Seq<u8>>, depth: nat)
    requires
        at(b, pos, concat(raws)),
        is_scalar_type(ty),
        forall|i: int| 0 <= i < raws.len() ==> (#[trigger] raws[i]).len() == scalar_size(ty),
    ensures
        items_end(b, pos, ty, raws.len(), true, depth) == Some(pos + concat(raws).len()),
        concat(raws).len() >= raws.len(),
    decreases raws.len(),
{
    if raws.len() > 0 {
        let rest = raws.drop_first();
        assert forall|i: int| 0 <= i < rest.len() implies (#[trigger] rest[i]).len() == scalar_size(ty) by {
            assert(rest[i] == raws[i + 1]);
        }
        assert(raws[0].len() == scalar_size(ty));
        let next = pos + raws[0].len();
        lemma_at_split(b, pos, raws[0], concat(rest));
        lemma_scalars(b, next, ty, rest, depth);
        assert(value_end(b, pos, ty, true, depth) == Some(next));
        assert(items_end(b, pos, ty, raws.len(), true, depth) == items_end(b, next, ty, rest.len(), true, depth));
    }
}

proof fn lemma_value(b: Seq<u8>, pos: int, v: ValueLayout)
    requires
        at(b, pos, enc_value(v)),
        value_ok(v),
        b.len() <= max_file_len(),
    ensures
        value_end(b, pos, value_type(v), true, MAX_NESTING as nat) == Some(pos + enc_value(v).len()),
{
    lemma_pow_facts();
    match v {
        ValueLayout::Scalar { ty, raw } => {},
        ValueLayout::Text { text } => {
            lemma_string(b, pos, text);
        },
        ValueLayout::TextArray { texts } => {
            let head = le_bytes(8, 4) + le_bytes(texts.len(), 8);
            lemma_at_split(b, pos, head, enc_strings(texts));
            lemma_at_split(b, pos, le_bytes(8, 4), le_bytes(texts.len(), 8));
            lemma_le_bytes_len(8, 4);
            lemma_le_bytes_len(texts.len(), 8);
            lemma_strings(b, pos + 12, texts, (MAX_NESTING - 1) as nat);
            lemma_field(b, pos, 8, 4);
            lemma_field(b, pos + 4, texts.len(), 8);
        },
        ValueLayout::ScalarArray { item_ty, raws } => {
            let head = le_bytes(item_ty, 4) + le_bytes(raws.len(), 8);
            lemma_at_split(b, pos, head, concat(raws));
            lemma_at_split(b, pos, le_bytes(item_ty, 4), le_bytes(raws.len(), 8));
            lemma_le_bytes_len(item_ty, 4);
            lemma_le_bytes_len(raws.len(), 8);
            lemma_scalars(b, pos + 12, item_ty, raws, (MAX_NESTING - 1) as nat);
            lemma_field(b, pos, item_ty, 4);
            lemma_field(b, pos + 4, raws.len(), 8);
        },
    }
}

proof fn lemma_entry(b: Seq<u8>, pos: int, e: (Seq<u8>, ValueLayout))
    requires
        at(b, pos, enc_entry(e)),
        entry_ok(e),
        b.len() <= max_file_len(),
    ensures
        entry_end(b, pos, true) == Some(pos + enc_entry(e).len()),
        enc_entry(e).len() >= 1,
{
    lemma_pow_facts();
    let key = enc_string(e.0);
    let tag = le_bytes(value_type(e.1), 4);
    lemma_at_split(b, pos, key + tag, enc_value(e.1));
    lemma_at_split(b, pos, key, tag);
    lemma_string(b, pos, e.0);
    assert(value_type(e.1) < 0x1_0000_0000) by {
        if e.1 is Scalar {
            assert(is_scalar_type(value_type(e.1)));
        }
    }
    lemma_field(b, pos + key.len(), value_type(e.1), 4);
    let k = pos + key.len();
    lemma_at_split(b, pos, le_bytes(e.0.len(), 8), e.0);
    assert(b.subrange(pos + 8, k) == e.0);
    if is_alignment_key(e.0) && value_type(e.1) <= 5 {
        assert(e.1 is Scalar);
        assert(b.subrange(k + 4, k + 4 + enc_value(e.1).len()) == e.1->raw);
    }
    lemma_value(b, k + 4, e.1);
}

proof fn lemma_entries(b: Seq<u8>, pos: int, es: Seq<(Seq<u8>, ValueLayout)>)
    requires
        at(b, pos, enc_entries(es)),
        forall|i: int| 0 <= i < es.len() ==> entry_ok(#[trigger] es[i]),
        b.len() <= max_file_len(),
    ensures
        entries_end(b, pos, es.len(), true) == Some(pos + enc_entries(es).len()),
        enc_entries(es).len() >= es.len(),
    decreases es.len(),
{
    if es.len() > 0 {
        let rest = es.drop_first();
        assert forall|i: int| 0 <= i < rest.len() implies entry_ok(#[trigger] rest[i]) by {
            assert(rest[i] == es[i + 1]);
        }
        assert(entry_ok(es[0]));
        lemma_at_split(b, pos, enc_entry(es[0]), enc_entries(rest));
        lemma_entry(b, pos, es[0]);
        lemma_entries(b, pos + enc_entry(es[0]).len(), rest);
    }
}

proof fn lemma_descriptor(b: Seq<u8>, pos: int, t: (Seq<u8>, nat, Seq<u8>, Seq<u8>))
    requires
        at(b, pos, enc_descriptor(t)),
        descriptor_ok(t),
        b.len() <= max_file_len(),
    ensures
        descriptor_end(b, pos, true) == Some(pos + enc_descriptor(t).len()),
        enc_descriptor(t).len() >= 1,
{
    lemma_pow_facts();
    let key = enc_string(t.0);
    let nd = le_bytes(t.1, 4);
    lemma_at_split(b, pos, key + nd + t.2, t.3);
    lemma_at_split(b, pos, key + nd, t.2);
    lemma_at_split(b, pos, key, nd);
    lemma_string(b, pos, t.0);
    lemma_field(b, pos + key.len(), t.1, 4);
}

proof fn lemma_descriptors(b: Seq<u8>, pos: int, ts: Seq<(Seq<u8>, nat, Seq<u8>, Seq<u8>)>)
    requires
        at(b, pos, enc_descriptors(ts)),
        forall|i: int| 0 <= i < ts.len() ==> descriptor_ok(#[trigger] ts[i]),
        b.len() <= max_file_len(),
    ensures
        descriptors_end(b, pos, ts.len(), true) == Some(pos + enc_descriptors(ts).len()),
        enc_descriptors(ts).len() >= ts.len(),
    decreases ts.len(),
{
    if ts.len() > 0 {
        let rest = ts.drop_first();
        assert forall|i: int| 0 <= i < rest.len() implies descriptor_ok(#[trigger] rest[i]) by {
            assert(rest[i] == ts[i + 1]);
        }
        assert(descriptor_ok(ts[0]));
        lemma_at_split(b, pos, enc_descriptor(ts[0]), enc_descriptors(rest));
        lemma_descriptor(b, pos, ts[0]);
        lemma_descriptors(b, pos + enc_descriptor(ts[0]).len(), rest);
    }
}

/// Every well-formed file passes the layout check: a version 2 or 3 file
/// whose metadata values are fixed-size values, strings, arrays of strings
/// (such as the vocabulary) or arrays of fixed-size values, whose tensor
/// descriptors carry eight bytes per dimension, whose alignment (if it sets
/// one) is not zero, and which is no longer than the longest file walked.
pub proof fn law_well_formed_files_pass(
    version: nat,
    entries: Seq<(Seq<u8>, ValueLayout)>,
    tensors: Seq<(Seq<u8>, nat, Seq<u8>, Seq<u8>)>,
    rest: Seq<u8>,
)
    requires
        version == 2 || version == 3,
        forall|i: int| 0 <= i < entries.len() ==> entry_ok(#[trigger] entries[i]),
        forall|i: int| 0 <= i < tensors.len() ==> descriptor_ok(#[trigger] tensors[i]),
        enc_file(version, entries, tensors, rest).len() <= max_file_len(),
    ensures
        layout_sound(enc_file(version, entries, tensors, rest)),
{
    lemma_pow_facts();
    let b = enc_file(version, entries, tensors, rest);
    let h1 = gguf_magic();
    let h2 = le_bytes(version, 4);
    let h3 = le_bytes(tensors.len(), 8);
    let h4 = le_bytes(entries.len(), 8);
    let es = enc_entries(entries);
    let ds = enc_descriptors(tensors);
    lemma_le_bytes_len(version, 4);
    lemma_le_bytes_len(tensors.len(), 8);
    lemma_le_bytes_len(entries.len(), 8);
    assert(at(b, 0, b)) by {
        assert(b.subrange(0, b.len() as int) =~= b);
    }
    lemma_at_split(b, 0, h1 + h2 + h3 + h4 + es + ds, rest);
    lemma_at_split(b, 0, h1 + h2 + h3 + h4 + es, ds);
    lemma_at_split(b, 0, h1 + h2 + h3 + h4, es);
    lemma_entries(b, 24, entries);
    lemma_descriptors(b, 24 + es.len() as int, tensors);
    lemma_header_fields(b, version, tensors.len(), entries.len());
}

proof fn lemma_header_fields(b: Seq<u8>, version: nat, n_tensors: nat, n_entries: nat)
    requires
        at(b, 0, gguf_magic() + le_bytes(version, 4) + le_bytes(n_tensors, 8) + le_bytes(n_entries, 8)),
        version < 0x1_0000_0000,
        n_tensors < 0x1_0000_0000_0000_0000,
        n_entries < 0x1_0000_0000_0000_0000,
    ensures
        le_field(b, 0, 4) == Some(0x46554747nat),
        le_field(b, 4, 4) == Some(version),
        le_field(b, 8, 8) == Some(n_tensors),
        le_field(b, 16, 8) == Some(n_entries),
{
    lemma_pow_facts();
    let h1 = gguf_magic();
    let h2 = le_bytes(version, 4);
    let h3 = le_bytes(n_tensors, 8);
    let h4 = le_bytes(n_entries, 8);
    lemma_le_round_trip(version, 4);
    lemma_le_round_trip(n_tensors, 8);
    lemma_le_round_trip(n_entries, 8);
    lemma_at_split(b, 0, h1 + h2 + h3, h4);
    lemma_at_split(b, 0, h1 + h2, h3);
    lemma_at_split(b, 0, h1, h2);
    lemma_field(b, 4, version, 4);
    lemma_field(b, 8, n_tensors, 8);
    lemma_field(b, 16, n_entries, 8);
    assert(le_value(h1) == 0x46554747) by {
        reveal_with_fuel(le_value, 5);
    }
    assert(le_field(b, 0, 4) == Some(le_value(h1)));
}

/// `r` stands for the end position `e`.
pub open spec fn end_is(r: Option<usize>, e: Option<int>) -> bool {
    match r {
        Some(p) => e == Some(p as int),
        None => e is None,
    }
}

fn read_width(b: &[u8], pos: usize, wide: bool) -> (r: Option<u64>)
    ensures
        match le_field(b@, pos as int, width(wide)) {
            Some(v) => r == Some(v as u64) && v <= u64::MAX && pos + width(wide) <= b.len(),
            None => r is None,
        },
{
    if wide {
        read_u64_le(b, pos)
    } else {
        match read_u32_le(b, pos) {
            Some(v) => Some(v as u64),
            None => None,
        }
    }
}

fn string_end_exec(b: &[u8], pos: usize, wide: bool) -> (r: Option<usize>)
    ensures
        end_is(r, string_end(b@, pos as int, wide)),
        r matches Some(e) ==> e <= b.len(),
{
    let n = match read_width(b, pos, wide) {
        Some(n) => n,
        None => return None,
    };
    let start = if wide { pos + 8 } else { pos + 4 };
    if n <= (b.len() - start) as u64 {
        Some(start + n as usize)
    } else {
        None
    }
}

fn scalar_size_exec(ty: u32) -> (r: usize)
    ensures
        r == scalar_size(ty as nat),
{
    if ty == 0 || ty == 1 || ty == 7 {
        1
    } else if ty == 2 || ty == 3 {
        2
    } else if ty == 4 || ty == 5 || ty == 6 {
        4
    } else {
        8
    }
}

fn value_end_exec(b: &[u8], pos: usize, ty: u32, wide: bool, depth: usize) -> (r: Option<usize>)
    requires
        pos <= b.len(),
    ensures
        end_is(r, value_end(b@, pos as int, ty as nat, wide, depth as nat)),
        r matches Some(e) ==> pos <= e <= b.len(),
    decreases depth,
{
    if ty == 8 {
        let r = string_end_exec(b, pos, wide);
        proof {
            if let Some(e) = r {
                assert(le_field(b@, pos as int, width(wide)) is Some);
            }
        }
        return r;
    }
    if ty == 9 {
        if depth == 0 {
            return None;
        }
        let item_ty = match read_u32_le(b, pos) {
            Some(t) => t,
            None => return None,
        };
        let n = match read_width(b, pos + 4, wide) {
            Some(n) => n,
            None => return None,
        };
        let start = if wide { pos + 12 } else { pos + 8 };
        if item_ty > 12 || n > (b.len() - start) as u64 {
            return None;
        }
        let ghost whole = items_end(b@, start as int, item_ty as nat, n as nat, wide, (depth - 1) as nat);
        assert(value_end(b@, pos as int, ty as nat, wide, depth as nat) == whole);
        let mut p: usize = start;
        let mut i: u64 = 0;
        while i < n
            invariant
                start <= p <= b.len(),
                i <= n,
                depth > 0,
                value_end(b@, pos as int, ty as nat, wide, depth as nat) == whole,
                whole == items_end(b@, p as int, item_ty as nat, (n - i) as nat, wide, (depth - 1) as nat),
            decreases n - i,
        {
            match value_end_exec(b, p, item_ty, wide, depth - 1) {
                Some(q) => {
                    p = q;
                },
                None => return None,
            }
            i = i + 1;
        }
        return Some(p);
    }
    if ty > 12 {
        return None;
    }
    let size = scalar_size_exec(ty);
    if size <= b.len() - pos {
        Some(pos + size)
    } else {
        None
    }
}

proof fn lemma_le_zero(s: Seq<u8>)
    ensures
        (le_value(s) == 0) <==> (forall|i: int| 0 <= i < s.len() ==> s[i] == 0),
    decreases s.len(),
{
    if s.len() > 0 {
        lemma_le_zero(s.drop_first());
        if le_value(s) == 0 {
            assert forall|i: int| 0 <= i < s.len() implies s[i] == 0 by {
                if i > 0 {
                    assert(s[i] == s.drop_first()[i - 1]);
                }
            }
        }
        if forall|i: int| 0 <= i < s.len() ==> s[i] == 0 {
            assert forall|i: int| 0 <= i < s.drop_first().len() implies s.drop_first()[i] == 0 by {
                assert(s.drop_first()[i] == s[i + 1]);
            }
        }
    }
}

proof fn lemma_le_nonzero(s: Seq<u8>, i: int)
    requires
        0 <= i < s.len(),
        s[i] != 0,
    ensures
        le_value(s) != 0,
    decreases s.len(),
{
    if i > 0 {
        assert(s.drop_first()[i - 1] == s[i]);
        lemma_le_nonzero(s.drop_first(), i - 1);
    }
}

/// Whether the `size` bytes at `pos` are all zero (they are known to be there).
fn all_zero(b: &[u8], pos: usize, size: usize) -> (r: bool)
    requires
        pos + size <= b.len(),
    ensures
        r == (le_field(b@, pos as int, size as int) == Some(0nat)),
{
    let ghost s = b@.subrange(pos as int, pos + size);
    proof {
        lemma_le_zero(s);
    }
    let mut i: usize = 0;
    while i < size
        invariant
            pos + size <= b.len(),
            i <= size,
            s == b@.subrange(pos as int, pos + size),
            forall|k: int| 0 <= k < i ==> s[k] == 0,
        decreases size - i,
    {
        if b[pos + i] != 0 {
            proof {
                lemma_le_nonzero(s, i as int);
            }
            assert(le_field(b@, pos as int, size as int) == Some(le_value(s)));
            return false;
        }
        i = i + 1;
    }
    assert(le_field(b@, pos as int, size as int) == Some(le_value(s)));
    true
}

fn is_alignment_key_exec(b: &[u8], start: usize, end: usize) -> (r: bool)
    requires
        start <= end <= b.len(),
    ensures
        r == is_alignment_key(b@.subrange(start as int, end as int)),
{
    let ghost k = b@.subrange(start as int, end as int);
    if end - start < 17 {
        return false;
    }
    let key: Vec<u8> = vec![103u8, 101, 110, 101, 114, 97, 108, 46, 97, 108, 105, 103, 110, 109, 101, 110, 116];
    assert(key@ =~= alignment_key());
    let mut i: usize = 0;
    while i < 17
        invariant
            start + 17 <= end <= b.len(),
            k == b@.subrange(start as int, end as int),
            key@ == alignment_key(),
            i <= 17,
            forall|j: int| 0 <= j < i ==> k[j] == alignment_key()[j],
        decreases 17 - i,
    {
        if b[start + i] != key[i] {
            assert(k.subrange(0, 17)[i as int] != alignment_key()[i as int]);
            return false;
        }
        i = i + 1;
    }
    assert(k.subrange(0, 17) =~= alignment_key());
    let mut j: usize = start + 17;
    while j < end
        invariant
            start + 17 <= j <= end <= b.len(),
            k == b@.subrange(start as int, end as int),
            forall|t: int| 17 <= t < j - start ==> k[t] == 0,
        decreases end - j,
    {
        if b[j] != 0 {
            assert(k[j - start] != 0);
            return false;
        }
        j = j + 1;
    }
    true
}

fn entry_end_exec(b: &[u8], pos: usize, wide: bool) -> (r: Option<usize>)
    requires
        pos <= b.len(),
    ensures
        end_is(r, entry_end(b@, pos as int, wide)),
        r matches Some(e) ==> pos <= e <= b.len(),
{
    let k = match string_end_exec(b, pos, wide) {
        Some(k) => k,
        None => return None,
    };
    let ty = match read_u32_le(b, k) {
        Some(t) => t,
        None => return None,
    };
    let key_start = if wide { pos + 8 } else { pos + 4 };
    if ty <= 5 && is_alignment_key_exec(b, key_start, k) {
        let size = scalar_size_exec(ty);
        if size <= b.len() - (k + 4) && all_zero(b, k + 4, size) {
            return None;
        }
    }
    value_end_exec(b, k + 4, ty, wide, MAX_NESTING)
}

fn descriptor_end_exec(b: &[u8], pos: usize, wide: bool) -> (r: Option<usize>)
    requires
        pos <= b.len(),
    ensures
        end_is(r, descriptor_end(b@, pos as int, wide)),
        r matches Some(e) ==> pos <= e <= b.len(),
{
    let k = match string_end_exec(b, pos, wide) {
        Some(k) => k,
        None => return None,
    };
    let nd = match read_u32_le(b, k) {
        Some(n) => n,
        None => return None,
    };
    let w: u64 = if wide { 8 } else { 4 };
    let need: u64 = nd as u64 * w + 12;
    if need <= (b.len() - (k + 4)) as u64 {
        Some(k + 4 + need as usize)
    } else {
        None
    }
}

fn entries_end_exec(b: &[u8], pos: usize, n: u64, wide: bool) -> (r: Option<usize>)
    requires
        pos <= b.len(),
    ensures
        end_is(r, entries_end(b@, pos as int, n as nat, wide)),
        r matches Some(e) ==> e <= b.len(),
{
    let mut p: usize = pos;
    let mut i: u64 = 0;
    while i < n
        invariant
            p <= b.len(),
            i <= n,
            entries_end(b@, pos as int, n as nat, wide) == entries_end(b@, p as int, (n - i) as nat, wide),
        decreases n - i,
    {
        match entry_end_exec(b, p, wide) {
            Some(q) => {
                p = q;
            },
            None => return None,
        }
        i = i + 1;
    }
    Some(p)
}

fn descriptors_end_exec(b: &[u8], pos: usize, n: u64, wide: bool) -> (r: Option<usize>)
    requires
        pos <= b.len(),
    ensures
        end_is(r, descriptors_end(b@, pos as int, n as nat, wide)),
{
    let mut p: usize = pos;
    let mut i: u64 = 0;
    while i < n
        invariant
            p <= b.len(),
            i <= n,
            descriptors_end(b@, pos as int, n as nat, wide) == descriptors_end(b@, p as int, (n - i) as nat, wide),
        decreases n - i,
    {
        match descriptor_end_exec(b, p, wide) {
            Some(q) => {
                p = q;
            },
            None => return None,
        }
        i = i + 1;
    }
    Some(p)
}

/// Whether the whole layout of the file checks out (see the module
/// documentation).
pub fn check_layout(b: &[u8]) -> (r: bool)
    ensures
        r == layout_sound(b@),
{
    if b.len() > (isize::MAX as usize) / 64 {
        return false;
    }
    let magic = match read_u32_le(b, 0) {
        Some(m) => m,
        None => return false,
    };
    let version = match read_u32_le(b, 4) {
        Some(v) => v,
        None => return false,
    };
    if !(magic == 0x46554747 || magic == 0x47475546) || version < 1 || version > 3 {
        return false;
    }
    let wide = version != 1;
    let w: usize = if wide { 8 } else { 4 };
    let n_tensors = match read_width(b, 8, wide) {
        Some(n) => n,
        None => return false,
    };
    let n_entries = match read_width(b, 8 + w, wide) {
        Some(n) => n,
        None => return false,
    };
    match entries_end_exec(b, 8 + 2 * w, n_entries, wide) {
        Some(p) => descriptors_end_exec(b, p, n_tensors, wide).is_some(),
        None => false,
    }
}

} // verus!
