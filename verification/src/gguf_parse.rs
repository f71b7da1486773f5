//! Parsing a whole GGUF file with candle's reader, and the library's own
//! view of what it read: typed metadata values and tensor descriptors.

use candle_core::quantized::gguf_file::{Content, Value, VersionedMagic};
use vstd::prelude::*;
use crate::composition::{
    compose, is_composable, is_composition_of, composable, spec_version_of, GgufComposition,
    GgufContent, GgufMagic, TensorDescriptor,
};
use crate::gguf_header::le_field;
use crate::gguf_layout::{check_layout, layout_sound};
use crate::metadata::{is_integer_view, is_other_view, meta_view, meta_views, MetaValue, MetaView, MetadataItem};

verus! {

#[verifier::external_type_specification]
#[verifier::external_body]
pub struct ExValue(Value);

#[verifier::external_type_specification]
#[verifier::external_body]
pub struct ExCandleError(candle_core::Error);

/// What candle's `Content::read` yields for the bytes of a whole file, as
/// plain values: `None` where it fails; else the offset where the tensor
/// data starts, each metadata key with its value, and each tensor's name
/// with its dimensions (as `Shape::dims` gives them), its type's `Debug`
/// name, and its type's block size and block bytes. Keys are strings read
/// lossily with trailing zero bytes dropped; floats are their `Display`
/// text. It depends on the bytes alone: the reader works on an in-memory
/// cursor, and the maps hold no order.
pub uninterp spec fn candle_read(bytes: Seq<u8>) -> Option<
    (u64, Map<Seq<char>, MetaView>, Map<Seq<char>, (Seq<usize>, Seq<char>, u64, u64)>),
>;

/// What a candle metadata value holds, as a plain value: each kind as the
/// same kind, a float as its `Display` text, an array item by item.
pub uninterp spec fn value_view(value: Value) -> MetaView;

/// The start that candle's GGUF reader insists on: the first four bytes,
/// read little-endian, are the `GGUF` magic in either byte order, and the
/// next four, read little-endian, are `version`.
pub open spec fn gguf_prefix_is(bytes: Seq<u8>, version: nat) -> bool {
    &&& match le_field(bytes, 0, 4) {
        Some(m) => m == 0x46554747 || m == 0x47475546,
        None => false,
    }
    &&& le_field(bytes, 4, 4) == Some(version)
}

/// The product of a tensor's dimensions.
pub open spec fn dims_product(dims: Seq<usize>) -> nat
    decreases dims.len(),
{
    if dims.len() == 0 {
        1
    } else {
        dims[0] as nat * dims_product(dims.drop_first())
    }
}

/// `s` lists the entries of `m` once each, in some order, each value by
/// what it holds.
pub open spec fn entries_listed(s: Seq<(String, Value)>, m: Map<Seq<char>, MetaView>) -> bool {
    &&& s.len() == m.len()
    &&& forall|i: int, j: int| 0 <= i < j < s.len() ==> (#[trigger] s[i]).0@ != (#[trigger] s[j]).0@
    &&& forall|i: int| 0 <= i < s.len() ==> m.contains_key((#[trigger] s[i]).0@) && m[s[i].0@] == value_view(s[i].1)
    &&& forall|k: Seq<char>| m.contains_key(k) ==> exists|i: int| 0 <= i < s.len() && (#[trigger] s[i]).0@ == k
}

/// `s` lists the tensors of `m` once each, in some order.
pub open spec fn tensors_listed(
    s: Seq<(String, Vec<usize>, String, u64, u64)>,
    m: Map<Seq<char>, (Seq<usize>, Seq<char>, u64, u64)>,
) -> bool {
    &&& s.len() == m.len()
    &&& forall|i: int, j: int| 0 <= i < j < s.len() ==> (#[trigger] s[i]).0@ != (#[trigger] s[j]).0@
    &&& forall|i: int|
        0 <= i < s.len() ==> m.contains_key((#[trigger] s[i]).0@) && m[s[i].0@] == (s[i].1@, s[i].2@, s[i].3, s[i].4)
    &&& forall|k: Seq<char>| m.contains_key(k) ==> exists|i: int| 0 <= i < s.len() && (#[trigger] s[i]).0@ == k
}

/// `items` are the metadata entries of `m` once each, in some order.
pub open spec fn items_are(items: Seq<MetadataItem>, m: Map<Seq<char>, MetaView>) -> bool {
    &&& items.len() == m.len()
    &&& forall|i: int, j: int| 0 <= i < j < items.len() ==> (#[trigger] items[i]).key@ != (#[trigger] items[j]).key@
    &&& forall|i: int|
        0 <= i < items.len() ==> m.contains_key((#[trigger] items[i]).key@) && m[items[i].key@] == meta_view(items[i].value)
    &&& forall|k: Seq<char>| m.contains_key(k) ==> exists|i: int| 0 <= i < items.len() && (#[trigger] items[i]).key@ == k
}

/// `ts` are the tensors of `m` once each, in some order, each with the
/// product of its dimensions as its element count.
pub open spec fn descriptors_are(ts: Seq<TensorDescriptor>, m: Map<Seq<char>, (Seq<usize>, Seq<char>, u64, u64)>) -> bool {
    &&& ts.len() == m.len()
    &&& forall|i: int, j: int| 0 <= i < j < ts.len() ==> (#[trigger] ts[i]).name@ != (#[trigger] ts[j]).name@
    &&& forall|i: int|
        0 <= i < ts.len() ==> m.contains_key((#[trigger] ts[i]).name@) && m[ts[i].name@] == (
            ts[i].shape@,
            ts[i].dtype@,
            ts[i].block_size,
            ts[i].type_size,
        ) && ts[i].elem_count == dims_product(ts[i].shape@)
    &&& forall|k: Seq<char>| m.contains_key(k) ==> exists|i: int| 0 <= i < ts.len() && (#[trigger] ts[i]).name@ == k
}

/// `content` is the library's view of what candle reads from `bytes`.
pub open spec fn parsed_from(content: GgufContent, bytes: Seq<u8>) -> bool {
    match candle_read(bytes) {
        Some(p) => {
            &&& gguf_prefix_is(bytes, spec_version_of(content.magic) as nat)
            &&& content.tensor_data_offset == p.0
            &&& items_are(content.metadata@, p.1)
            &&& descriptors_are(content.tensors@, p.2)
        },
        None => false,
    }
}

/// Every tensor's element count fits in `usize`.
pub open spec fn counts_fit(m: Map<Seq<char>, (Seq<usize>, Seq<char>, u64, u64)>) -> bool {
    forall|k: Seq<char>| m.contains_key(k) ==> dims_product(#[trigger] m[k].0) <= usize::MAX
}

/// The bytes can be parsed: the layout checks out, candle reads them, and
/// every tensor's element count fits in `usize`.
pub open spec fn parses(bytes: Seq<u8>) -> bool {
    &&& layout_sound(bytes)
    &&& candle_read(bytes) matches Some(p) && counts_fit(p.2)
}

/// What candle read, moved out of its `Content`.
struct CandleRead {
    magic: GgufMagic,
    data_offset: u64,
    metadata: Vec<(String, Value)>,
    tensors: Vec<(String, Vec<usize>, String, u64, u64)>,
}

/// candle's `Content::read` on the bytes of a whole file, its contents moved
/// out as plain values (see [`candle_read`]). candle reads the magic word
/// and the version first and fails unless they are a GGUF magic and version
/// 1, 2 or 3. Every block size it reports is at least one. The bytes must
/// have a sound layout: candle allocates the lengths a file declares before
/// reading them, recurses into nested arrays, and divides by a
/// `general.alignment` entry it finds, so a file declaring lengths beyond
/// its end, nesting deeply, or with a zero alignment could make it panic or
/// exhaust memory or stack.
#[verifier::external_body]
fn read_gguf(bytes: &[u8]) -> (r: Result<CandleRead, candle_core::Error>)
    requires
        layout_sound(bytes@),
    ensures
        r is Ok <==> candle_read(bytes@) is Some,
        r matches Ok(g) ==> candle_read(bytes@) matches Some(p) && gguf_prefix_is(
            bytes@,
            spec_version_of(g.magic) as nat,
        ) && g.data_offset == p.0 && entries_listed(g.metadata@, p.1) && tensors_listed(g.tensors@, p.2),
        r matches Ok(g) ==> forall|i: int| 0 <= i < g.tensors.len() ==> (#[trigger] g.tensors@[i]).3 >= 1,
{
    let c = Content::read(&mut std::io::Cursor::new(bytes))?;
    let magic = match c.magic {
        VersionedMagic::GgufV1 => GgufMagic::GgufV1,
        VersionedMagic::GgufV2 => GgufMagic::GgufV2,
        VersionedMagic::GgufV3 => GgufMagic::GgufV3,
    };
    let tensors = c.tensor_infos.iter().map(|(n, t)| (n.clone(), t.shape.dims().to_vec(), format!("{:?}", t.ggml_dtype),
        t.ggml_dtype.block_size() as u64, t.ggml_dtype.type_size() as u64)).collect();
    Ok(CandleRead { magic, data_offset: c.tensor_data_offset, metadata: c.metadata.into_iter().collect(), tensors })
}

/// The text of a candle error (its `Display`). Nothing is stated of it.
#[verifier::external_body]
fn error_text(error: &candle_core::Error) -> String {
    error.to_string()
}

/// An integer candle value as the library's value of the same width and
/// sign; `None` for the other kinds.
#[verifier::external_body]
fn integer_value(value: &Value) -> (r: Option<MetaValue>)
    ensures
        match r {
            Some(m) => meta_view(m) == value_view(*value),
            None => !is_integer_view(value_view(*value)),
        },
{
    match value {
        Value::U8(v) => Some(MetaValue::U8(*v)),
        Value::I8(v) => Some(MetaValue::I8(*v)),
        Value::U16(v) => Some(MetaValue::U16(*v)),
        Value::I16(v) => Some(MetaValue::I16(*v)),
        Value::U32(v) => Some(MetaValue::U32(*v)),
        Value::I32(v) => Some(MetaValue::I32(*v)),
        Value::U64(v) => Some(MetaValue::U64(*v)),
        Value::I64(v) => Some(MetaValue::I64(*v)),
        _ => None,
    }
}

/// A float, boolean or string candle value as the library's value (floats
/// by their `Display` text); `None` for the other kinds.
#[verifier::external_body]
fn other_value(value: &Value) -> (r: Option<MetaValue>)
    ensures
        match r {
            Some(m) => meta_view(m) == value_view(*value),
            None => !is_other_view(value_view(*value)),
        },
{
    match value {
        Value::F32(v) => Some(MetaValue::F32(v.to_string())),
        Value::F64(v) => Some(MetaValue::F64(v.to_string())),
        Value::Bool(v) => Some(MetaValue::Bool(*v)),
        Value::String(v) => Some(MetaValue::String(v.clone())),
        _ => None,
    }
}

/// The items of an array candle value; `None` for the other kinds.
#[verifier::external_body]
fn array_items(value: &Value) -> (r: Option<&Vec<Value>>)
    ensures
        match r {
            Some(items) => value_view(*value) == MetaView::Array(
                Seq::new(items@.len(), |i: int| value_view(items@[i])),
            ),
            None => !(value_view(*value) is Array),
        },
{
    match value {
        Value::Array(items) => Some(items),
        _ => None,
    }
}

/// The library's value for a candle value.
fn meta_value(value: &Value) -> (r: MetaValue)
    ensures
        meta_view(r) == value_view(*value),
    decreases value_view(*value),
{
    if let Some(v) = integer_value(value) {
        return v;
    }
    if let Some(v) = other_value(value) {
        return v;
    }
    match array_items(value) {
        Some(items) => {
            let ghost views = Seq::new(items@.len(), |i: int| value_view(items@[i]));
            let mut out: Vec<MetaValue> = Vec::new();
            let mut i: usize = 0;
            while i < items.len()
                invariant
                    i <= items.len(),
                    value_view(*value) == MetaView::Array(views),
                    views == Seq::new(items@.len(), |i: int| value_view(items@[i])),
                    meta_views(out@) == views.take(i as int),
                decreases items.len() - i,
            {
                proof {
                    assert(views[i as int] == value_view(items@[i as int]));
                    assert(value_view(*value)->Array_0 == views);
                    assert(decreases_to!(value_view(*value) => value_view(*value)->Array_0));
                    assert(decreases_to!(value_view(*value)->Array_0 => value_view(*value)->Array_0[i as int]));
                }
                let v = meta_value(&items[i]);
                let ghost before = out@;
                out.push(v);
                proof {
                    assert(out@.drop_last() =~= before);
                    assert(views.take(i + 1) =~= views.take(i as int).push(views[i as int]));
                }
                i = i + 1;
            }
            assert(views.take(i as int) =~= views);
            MetaValue::Array(out)
        },
        None => {
            assert(false);
            MetaValue::Bool(false)
        },
    }
}

proof fn lemma_product_zero(s: Seq<usize>, i: int)
    requires
        0 <= i < s.len(),
        s[i] == 0,
    ensures
        dims_product(s) == 0,
    decreases s.len(),
{
    let a = s[0] as nat;
    let b = dims_product(s.drop_first());
    if i > 0 {
        assert(s.drop_first()[i - 1] == s[i]);
        lemma_product_zero(s.drop_first(), i - 1);
        assert(a * b == 0) by (nonlinear_arith)
            requires
                b == 0,
        ;
    } else {
        assert(a * b == 0) by (nonlinear_arith)
            requires
                a == 0,
        ;
    }
}

proof fn lemma_product_suffix(s: Seq<usize>, j: int)
    requires
        0 <= j <= s.len(),
        forall|k: int| 0 <= k < s.len() ==> s[k] >= 1,
    ensures
        dims_product(s) >= dims_product(s.subrange(j, s.len() as int)),
    decreases j,
{
    if j == 0 {
        assert(s.subrange(0, s.len() as int) =~= s);
    } else {
        let t = s.drop_first();
        assert forall|k: int| 0 <= k < t.len() implies t[k] >= 1 by {
            assert(t[k] == s[k + 1]);
        }
        lemma_product_suffix(t, j - 1);
        assert(t.subrange(j - 1, t.len() as int) =~= s.subrange(j, s.len() as int));
        let a = s[0] as nat;
        let b = dims_product(t);
        assert(a * b >= b) by (nonlinear_arith)
            requires
                a >= 1,
        ;
    }
}

/// The product of the dimensions, or `None` where it exceeds `usize`.
fn dims_count(dims: &Vec<usize>) -> (r: Option<usize>)
    ensures
        match r {
            Some(n) => n == dims_product(dims@),
            None => dims_product(dims@) > usize::MAX,
        },
{
    let mut z: usize = 0;
    while z < dims.len()
        invariant
            z <= dims.len(),
            forall|k: int| 0 <= k < z ==> dims@[k] >= 1,
        decreases dims.len() - z,
    {
        if dims[z] == 0 {
            proof {
                lemma_product_zero(dims@, z as int);
            }
            return Some(0);
        }
        z = z + 1;
    }
    let n = dims.len();
    let mut acc: usize = 1;
    let mut i: usize = n;
    assert(dims@.subrange(n as int, n as int) =~= Seq::<usize>::empty());
    while i > 0
        invariant
            n == dims.len(),
            i <= n,
            forall|k: int| 0 <= k < n ==> dims@[k] >= 1,
            acc == dims_product(dims@.subrange(i as int, n as int)),
        decreases i,
    {
        let ghost tail = dims@.subrange(i - 1, n as int);
        assert(tail.drop_first() =~= dims@.subrange(i as int, n as int));
        assert(tail[0] == dims@[i - 1]);
        match dims[i - 1].checked_mul(acc) {
            Some(next) => {
                acc = next;
            },
            None => {
                proof {
                    lemma_product_suffix(dims@, i - 1);
                }
                return None;
            },
        }
        i = i - 1;
    }
    assert(dims@.subrange(0, n as int) =~= dims@);
    Some(acc)
}

/// Parses the bytes of a whole GGUF file with candle into the library's
/// view of its contents: its magic marker, where the tensor data starts,
/// every metadata entry with its value, and every tensor with its
/// dimensions, type, element count and block geometry, entries and tensors
/// in no promised order. It fails when the file's layout does not check out
/// (see [`crate::gguf_layout`]), with candle's message when candle fails,
/// and when a tensor's element count exceeds `usize`.
pub fn parse_gguf(bytes: &[u8]) -> (r: Result<GgufContent, String>)
    ensures
        r is Ok <==> parses(bytes@),
        r matches Ok(c) ==> parsed_from(c, bytes@),
{
    if !check_layout(bytes) {
        return Err(String::from_str("malformed GGUF layout: a declared length, the array nesting or the alignment is out of bounds"));
    }
    let read = match read_gguf(bytes) {
        Ok(g) => g,
        Err(error) => return Err(error_text(&error)),
    };
    let ghost p = candle_read(bytes@)->0;
    let mut metadata: Vec<MetadataItem> = Vec::new();
    let mut i: usize = 0;
    while i < read.metadata.len()
        invariant
            i <= read.metadata.len(),
            metadata.len() == i,
            forall|k: int|
                0 <= k < i ==> (#[trigger] metadata@[k]).key@ == read.metadata@[k].0@ && meta_view(metadata@[k].value)
                    == value_view(read.metadata@[k].1),
        decreases read.metadata.len() - i,
    {
        let value = meta_value(&read.metadata[i].1);
        metadata.push(MetadataItem { key: read.metadata[i].0.clone(), value });
        i = i + 1;
    }
    let mut tensors: Vec<TensorDescriptor> = Vec::new();
    let mut j: usize = 0;
    while j < read.tensors.len()
        invariant
            j <= read.tensors.len(),
            tensors.len() == j,
            candle_read(bytes@) == Some(p),
            tensors_listed(read.tensors@, p.2),
            forall|k: int|
                0 <= k < j ==> {
                    let t = #[trigger] tensors@[k];
                    let s = read.tensors@[k];
                    &&& t.name@ == s.0@
                    &&& t.shape@ == s.1@
                    &&& t.dtype@ == s.2@
                    &&& t.block_size == s.3
                    &&& t.type_size == s.4
                    &&& t.elem_count == dims_product(t.shape@)
                    &&& t.elem_count <= usize::MAX
                },
        decreases read.tensors.len() - j,
    {
        let t = &read.tensors[j];
        let count = match dims_count(&t.1) {
            Some(c) => c,
            None => {
                proof {
                    assert(p.2.contains_key(read.tensors@[j as int].0@));
                    assert(p.2[read.tensors@[j as int].0@].0 == read.tensors@[j as int].1@);
                    assert(!counts_fit(p.2));
                }
                return Err(String::from_str("a tensor's element count overflows"));
            },
        };
        let shape = t.1.clone();
        assert(shape@ =~= t.1@);
        tensors.push(
            TensorDescriptor {
                name: t.0.clone(),
                shape,
                dtype: t.2.clone(),
                elem_count: count as u64,
                block_size: t.3,
                type_size: t.4,
            },
        );
        j = j + 1;
    }
    let content = GgufContent { magic: read.magic, metadata, tensors, tensor_data_offset: read.data_offset };
    proof {
        assert forall|k: Seq<char>| p.2.contains_key(k) implies dims_product(#[trigger] p.2[k].0) <= usize::MAX by {
            let i = choose|i: int| 0 <= i < read.tensors.len() && (#[trigger] read.tensors@[i]).0@ == k;
            assert(content.tensors@[i].name@ == k);
            assert(p.2[k].0 == read.tensors@[i].1@);
        }
        assert forall|k: Seq<char>| p.1.contains_key(k) implies exists|i: int|
            0 <= i < content.metadata.len() && (#[trigger] content.metadata@[i]).key@ == k by {
            let i = choose|i: int| 0 <= i < read.metadata.len() && (#[trigger] read.metadata@[i]).0@ == k;
            assert(content.metadata@[i].key@ == k);
        }
        assert forall|k: Seq<char>| p.2.contains_key(k) implies exists|i: int|
            0 <= i < content.tensors.len() && (#[trigger] content.tensors@[i]).name@ == k by {
            let i = choose|i: int| 0 <= i < read.tensors.len() && (#[trigger] read.tensors@[i]).0@ == k;
            assert(content.tensors@[i].name@ == k);
        }
        assert forall|a: int, b: int| 0 <= a < b < content.metadata.len() implies (#[trigger] content.metadata@[a]).key@
            != (#[trigger] content.metadata@[b]).key@ by {
            assert(read.metadata@[a].0@ != read.metadata@[b].0@);
        }
        assert forall|a: int, b: int| 0 <= a < b < content.tensors.len() implies (#[trigger] content.tensors@[a]).name@
            != (#[trigger] content.tensors@[b]).name@ by {
            assert(read.tensors@[a].0@ != read.tensors@[b].0@);
        }
        assert forall|a: int| 0 <= a < content.metadata.len() implies p.1.contains_key(
            (#[trigger] content.metadata@[a]).key@,
        ) && p.1[content.metadata@[a].key@] == meta_view(content.metadata@[a].value) by {
            assert(read.metadata@[a].0@ == content.metadata@[a].key@);
        }
        assert forall|a: int| 0 <= a < content.tensors.len() implies p.2.contains_key(
            (#[trigger] content.tensors@[a]).name@,
        ) && p.2[content.tensors@[a].name@] == (
            content.tensors@[a].shape@,
            content.tensors@[a].dtype@,
            content.tensors@[a].block_size,
            content.tensors@[a].type_size,
        ) && content.tensors@[a].elem_count == dims_product(content.tensors@[a].shape@) by {
            assert(read.tensors@[a].0@ == content.tensors@[a].name@);
        }
    }
    Ok(content)
}

/// The composition of a parsed file of `file_size` bytes, or the overflow
/// error where a tensor's byte size or the KV-cache figures do not fit in
/// 64 bits.
pub fn composition_of(content: &GgufContent, file_size: u64) -> (r: Result<GgufComposition, String>)
    ensures
        match r {
            Ok(c) => composable(*content) && is_composition_of(c, *content, file_size),
            Err(e) => !composable(*content) && e@ == "attempt to multiply with overflow"@,
        },
{
    if !is_composable(content) {
        return Err(String::from_str("attempt to multiply with overflow"));
    }
    Ok(compose(content, file_size))
}

/// The composition of the GGUF file whose bytes are `bytes`: parsed with
/// [`parse_gguf`], then composed with the file's length as its size. It
/// fails where the parse fails, and with the overflow error where the parsed
/// contents cannot be composed in 64 bits.
pub fn composition_from_bytes(bytes: &[u8]) -> (r: Result<GgufComposition, String>)
    ensures
        r matches Ok(c) ==> exists|content: GgufContent|
            parsed_from(content, bytes@) && composable(content) && is_composition_of(c, content, bytes@.len() as u64),
        parses(bytes@) && (forall|content: GgufContent| parsed_from(content, bytes@) ==> composable(content)) ==> r is Ok,
        !parses(bytes@) ==> r is Err,
{
    let content = parse_gguf(bytes)?;
    let r = composition_of(&content, bytes.len() as u64);
    assert(r matches Ok(c) ==> parsed_from(content, bytes@) && composable(content) && is_composition_of(
        c,
        content,
        bytes@.len() as u64,
    ));
    r
}

} // verus!
