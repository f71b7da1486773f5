//! What a GGUF file is made of: its byte regions, every metadata entry,
//! every tensor's shape, type and size, the chat template, the special
//! tokens, and the KV-cache footprint its architecture implies.

use std::collections::HashMap;
use vstd::prelude::*;
use crate::metadata::{
    describe, describe_value, lookup, meta_lookup, spec_as_array, spec_as_text, spec_as_u32,
    MetadataItem,
};
use crate::order::{lemma_lex_lt_strict_total, lex_less, lex_lt, sort_positions, sorted_permutation};
use crate::text::{chars_of, push_str};
use crate::vocab::{decode_vocab_token, gpt2_reverse_map, gpt2_unicode_to_byte, opt_text, spec_decode_vocab_token};

verus! {

/// Size of the fixed GGUF header: magic, version, tensor count, metadata count.
pub const HEADER_SIZE: u64 = 24;

/// The magic/version marker a GGUF file starts with.
#[derive(Debug, Clone, Copy, PartialEq, Eq)]
pub enum GgufMagic {
    GgufV1,
    GgufV2,
    GgufV3,
}

/// The format version a magic marker stands for.
pub open spec fn spec_version_of(magic: GgufMagic) -> u32 {
    match magic {
        GgufMagic::GgufV1 => 1,
        GgufMagic::GgufV2 => 2,
        GgufMagic::GgufV3 => 3,
    }
}

/// The format version a magic marker stands for.
pub fn version_of(magic: GgufMagic) -> (r: u32)
    ensures
        r == spec_version_of(magic),
{
    match magic {
        GgufMagic::GgufV1 => 1,
        GgufMagic::GgufV2 => 2,
        GgufMagic::GgufV3 => 3,
    }
}

/// One tensor descriptor of a GGUF file, with the element count of its
/// shape and the block geometry of its quantization type.
pub struct TensorDescriptor {
    pub name: String,
    pub shape: Vec<usize>,
    /// The quantization type's name, as `Debug` shows it (`F32`, `Q4K`, ...).
    pub dtype: String,
    pub elem_count: u64,
    /// Elements per quantization block.
    pub block_size: u64,
    /// Bytes per quantization block.
    pub type_size: u64,
}

/// The parsed contents of a GGUF file that the composition is made from.
pub struct GgufContent {
    pub magic: GgufMagic,
    pub metadata: Vec<MetadataItem>,
    pub tensors: Vec<TensorDescriptor>,
    pub tensor_data_offset: u64,
}

/// One metadata entry as shown: its key and its value's text.
#[derive(Debug, Clone, PartialEq, Eq)]
pub struct MetadataEntry {
    pub key: String,
    pub value: String,
}

/// One tensor as shown: name, shape, type and bytes on disk.
#[derive(Debug, Clone, PartialEq, Eq)]
pub struct TensorSummary {
    pub name: String,
    pub shape: Vec<usize>,
    pub dtype: String,
    pub byte_size: u64,
}

/// A special token (BOS, EOS, UNK, PAD) with its decoded text.
#[derive(Debug, Clone, PartialEq, Eq)]
pub struct SpecialToken {
    pub label: String,
    pub text: String,
}

/// KV-cache size implied by the architecture metadata, for an F16 cache.
#[derive(Debug, Clone, PartialEq, Eq)]
pub struct KvCacheEstimate {
    pub bytes_per_token: u64,
    pub context_length: Option<u64>,
    pub bytes_at_max_context: Option<u64>,
}

/// A GGUF file's layout and contents.
#[derive(Debug, Clone, PartialEq, Eq)]
pub struct GgufComposition {
    pub version: u32,
    pub file_size: u64,
    pub header_size: u64,
    /// Metadata entries and tensor descriptors, stored back to back.
    pub metadata_and_descriptors_size: u64,
    pub tensor_data_offset: u64,
    pub tensor_data_size: u64,
    /// Sorted by key.
    pub metadata: Vec<MetadataEntry>,
    /// Largest first.
    pub tensors: Vec<TensorSummary>,
    /// The raw chat template (`tokenizer.chat_template`), if present.
    pub chat_template: Option<String>,
    pub special_tokens: Vec<SpecialToken>,
    /// `None` when the architecture metadata lacks what the estimate needs.
    pub kv_cache: Option<KvCacheEstimate>,
}

/// Bytes a tensor occupies: whole quantization blocks times bytes per block.
pub open spec fn spec_tensor_byte_size(elem_count: u64, block_size: u64, type_size: u64) -> int {
    (elem_count as int / (if block_size == 0 { 1 } else { block_size as int })) * type_size as int
}

/// Bytes a tensor occupies: whole quantization blocks times bytes per block
/// (a block size of zero is taken as one).
pub fn tensor_byte_size(elem_count: u64, block_size: u64, type_size: u64) -> (r: u64)
    requires
        spec_tensor_byte_size(elem_count, block_size, type_size) <= u64::MAX,
    ensures
        r == spec_tensor_byte_size(elem_count, block_size, type_size),
{
    let blocks = elem_count / if block_size == 0 { 1 } else { block_size };
    blocks * type_size
}

/// The size of a described tensor.
pub open spec fn spec_descriptor_size(t: TensorDescriptor) -> int {
    spec_tensor_byte_size(t.elem_count, t.block_size, t.type_size)
}

/// Every tensor's size fits in 64 bits.
pub open spec fn tensor_sizes_fit(tensors: Seq<TensorDescriptor>) -> bool {
    forall|i: int| 0 <= i < tensors.len() ==> #[trigger] spec_descriptor_size(tensors[i]) <= u64::MAX
}

/// Tensor order: larger first; equal sizes keep their order.
pub open spec fn tensor_before(tensors: Seq<TensorDescriptor>, a: int, b: int) -> bool {
    spec_descriptor_size(tensors[a]) > spec_descriptor_size(tensors[b]) || (
    spec_descriptor_size(tensors[a]) == spec_descriptor_size(tensors[b]) && a < b)
}

/// Metadata order: by key; equal keys keep their order.
pub open spec fn metadata_before(items: Seq<MetadataItem>, a: int, b: int) -> bool {
    lex_lt(items[a].key@, items[b].key@) || (items[a].key@ == items[b].key@ && a < b)
}


/// The metadata entries shown in key order: entry `i` is item `perm[i]`
/// with its value described, for the sorted permutation `perm`.
pub open spec fn metadata_shown_as(
    entries: Seq<MetadataEntry>,
    items: Seq<MetadataItem>,
    perm: Seq<usize>,
) -> bool {
    &&& sorted_permutation(perm, items.len() as int, |a: int, b: int| metadata_before(items, a, b))
    &&& entries.len() == items.len()
    &&& forall|i: int|
        0 <= i < entries.len() ==> {
            &&& (#[trigger] entries[i]).key@ == items[perm[i] as int].key@
            &&& entries[i].value@ == describe(items[perm[i] as int].value)
        }
}

/// Every metadata entry with its value shown (see [`describe`]), sorted by key.
pub fn sorted_metadata(items: &Vec<MetadataItem>) -> (r: Vec<MetadataEntry>)
    ensures
        exists|perm: Seq<usize>| metadata_shown_as(r@, items@, perm),
{
    let n = items.len();
    let mut keys: Vec<Vec<char>> = Vec::new();
    let mut i: usize = 0;
    while i < n
        invariant
            n == items.len(),
            i <= n,
            keys.len() == i,
            forall|k: int| 0 <= k < i ==> #[trigger] keys@[k]@ == items@[k].key@,
        decreases n - i,
    {
        keys.push(chars_of(items[i].key.as_str()));
        i = i + 1;
    }
    let ghost lt = |a: int, b: int| metadata_before(items@, a, b);
    proof {
        assert forall|a: int, b: int, c: int|
            0 <= a < n && 0 <= b < n && 0 <= c < n && #[trigger] lt(a, b) && #[trigger] lt(b, c)
            implies lt(a, c) by {
            lemma_lex_lt_strict_total(items@[a].key@, items@[b].key@, items@[c].key@);
        }
        assert forall|a: int, b: int| 0 <= a < n && 0 <= b < n && a != b
            implies #[trigger] lt(a, b) || #[trigger] lt(b, a) by {
            lemma_lex_lt_strict_total(items@[a].key@, items@[b].key@, items@[a].key@);
        }
        assert forall|a: int| 0 <= a < n implies !#[trigger] lt(a, a) by {
            lemma_lex_lt_strict_total(items@[a].key@, items@[a].key@, items@[a].key@);
        }
    }
    let less = |a: usize, b: usize| -> (r: bool)
        requires
            a < keys.len() && b < keys.len(),
        ensures
            r == (lex_lt(keys@[a as int]@, keys@[b as int]@) || (keys@[a as int]@ == keys@[b as int]@ && a < b)),
    {
        if lex_less(&keys[a], &keys[b]) {
            true
        } else if lex_less(&keys[b], &keys[a]) {
            false
        } else {
            proof {
                lemma_lex_lt_strict_total(keys@[a as int]@, keys@[b as int]@, keys@[a as int]@);
            }
            a < b
        }
    };
    let perm = sort_positions(n, less, Ghost(lt));
    let mut r: Vec<MetadataEntry> = Vec::new();
    let mut j: usize = 0;
    while j < n
        invariant
            n == items.len(),
            j <= n,
            sorted_permutation(perm@, n as int, lt),
            r.len() == j,
            forall|i: int|
                0 <= i < j ==> {
                    &&& (#[trigger] r@[i]).key@ == items@[perm@[i] as int].key@
                    &&& r@[i].value@ == describe(items@[perm@[i] as int].value)
                },
        decreases n - j,
    {
        let item = &items[perm[j]];
        r.push(MetadataEntry { key: item.key.clone(), value: describe_value(&item.value) });
        j = j + 1;
    }
    assert(metadata_shown_as(r@, items@, perm@));
    r
}

/// The tensors shown largest first: summary `i` is tensor `perm[i]`, for the
/// sorted permutation `perm`.
pub open spec fn tensors_shown_as(
    summaries: Seq<TensorSummary>,
    tensors: Seq<TensorDescriptor>,
    perm: Seq<usize>,
) -> bool {
    &&& sorted_permutation(perm, tensors.len() as int, |a: int, b: int| tensor_before(tensors, a, b))
    &&& summaries.len() == tensors.len()
    &&& forall|i: int|
        0 <= i < summaries.len() ==> {
            let t = tensors[perm[i] as int];
            &&& (#[trigger] summaries[i]).name@ == t.name@
            &&& summaries[i].shape@ == t.shape@
            &&& summaries[i].dtype@ == t.dtype@
            &&& summaries[i].byte_size == spec_descriptor_size(t)
        }
}

/// Every tensor with its size on disk, largest first (equal sizes keep
/// their order).
pub fn sorted_tensors(tensors: &Vec<TensorDescriptor>) -> (r: Vec<TensorSummary>)
    requires
        tensor_sizes_fit(tensors@),
    ensures
        exists|perm: Seq<usize>| tensors_shown_as(r@, tensors@, perm),
{
    let n = tensors.len();
    let mut sizes: Vec<u64> = Vec::new();
    let mut i: usize = 0;
    while i < n
        invariant
            n == tensors.len(),
            tensor_sizes_fit(tensors@),
            i <= n,
            sizes.len() == i,
            forall|k: int| 0 <= k < i ==> #[trigger] sizes@[k] == spec_descriptor_size(tensors@[k]),
        decreases n - i,
    {
        let t = &tensors[i];
        proof {
            assert(spec_descriptor_size(tensors@[i as int]) <= u64::MAX);
        }
        sizes.push(tensor_byte_size(t.elem_count, t.block_size, t.type_size));
        i = i + 1;
    }
    let ghost lt = |a: int, b: int| tensor_before(tensors@, a, b);
    let less = |a: usize, b: usize| -> (r: bool)
        requires
            a < sizes.len() && b < sizes.len(),
        ensures
            r == (sizes@[a as int] > sizes@[b as int] || (sizes@[a as int] == sizes@[b as int] && a < b)),
    {
        sizes[a] > sizes[b] || (sizes[a] == sizes[b] && a < b)
    };
    let perm = sort_positions(n, less, Ghost(lt));
    let mut r: Vec<TensorSummary> = Vec::new();
    let mut j: usize = 0;
    while j < n
        invariant
            n == tensors.len(),
            sizes.len() == n,
            forall|k: int| 0 <= k < n ==> #[trigger] sizes@[k] == spec_descriptor_size(tensors@[k]),
            j <= n,
            sorted_permutation(perm@, n as int, lt),
            r.len() == j,
            forall|i: int|
                0 <= i < j ==> {
                    let t = tensors@[perm@[i] as int];
                    &&& (#[trigger] r@[i]).name@ == t.name@
                    &&& r@[i].shape@ == t.shape@
                    &&& r@[i].dtype@ == t.dtype@
                    &&& r@[i].byte_size == spec_descriptor_size(t)
                },
        decreases n - j,
    {
        let k = perm[j];
        let t = &tensors[k];
        let shape = t.shape.clone();
        assert(shape@ =~= t.shape@);
        r.push(TensorSummary { name: t.name.clone(), shape, dtype: t.dtype.clone(), byte_size: sizes[k] });
        j = j + 1;
    }
    assert(tensors_shown_as(r@, tensors@, perm@));
    r
}


/// The text stored under `key`, if that value is a string.
pub open spec fn spec_text_field(items: Seq<MetadataItem>, key: Seq<char>) -> Option<Seq<char>> {
    match meta_lookup(items, key) {
        Some(v) => spec_as_text(v),
        None => None,
    }
}

/// The number stored under `key`, if that value is a `U32`.
pub open spec fn spec_u32_field(items: Seq<MetadataItem>, key: Seq<char>) -> Option<u32> {
    match meta_lookup(items, key) {
        Some(v) => spec_as_u32(v),
        None => None,
    }
}

/// A per-architecture field: `<architecture>.<name>`, since GGUF namespaces
/// these under the file's own declared architecture.
pub open spec fn spec_arch_field(items: Seq<MetadataItem>, arch: Seq<char>, name: Seq<char>) -> Option<u32> {
    spec_u32_field(items, arch + "."@ + name)
}

/// The text stored under `key`, if that value is a string.
pub fn text_field<'a>(items: &'a Vec<MetadataItem>, key: &str) -> (r: Option<&'a String>)
    ensures
        match spec_text_field(items@, key@) {
            Some(t) => r matches Some(s) && s@ == t,
            None => r is None,
        },
{
    match lookup(items, key) {
        Some(v) => v.as_text(),
        None => None,
    }
}

/// The number stored under `key`, if that value is a `U32`.
pub fn u32_field(items: &Vec<MetadataItem>, key: &str) -> (r: Option<u32>)
    ensures
        r == spec_u32_field(items@, key@),
{
    match lookup(items, key) {
        Some(v) => v.as_u32(),
        None => None,
    }
}

fn arch_field(items: &Vec<MetadataItem>, arch: &String, name: &str) -> (r: Option<u32>)
    ensures
        r == spec_arch_field(items@, arch@, name@),
{
    let mut key = arch.clone();
    push_str(&mut key, ".");
    push_str(&mut key, name);
    u32_field(items, key.as_str())
}

/// The architecture figures the KV-cache estimate is made from: block
/// count, KV head count (the head count when not declared: every head then
/// keeps its own KV), head dimension, and the optional context length.
pub open spec fn spec_kv_parts(items: Seq<MetadataItem>) -> Option<(int, int, int, Option<int>)> {
    match spec_text_field(items, "general.architecture"@) {
        None => None,
        Some(arch) => match (
            spec_arch_field(items, arch, "block_count"@),
            spec_arch_field(items, arch, "attention.head_count"@),
            spec_arch_field(items, arch, "embedding_length"@),
        ) {
            (Some(blocks), Some(heads), Some(embedding)) => {
                let kv_heads: int = match spec_arch_field(items, arch, "attention.head_count_kv"@) {
                    Some(k) => k as int,
                    None => heads as int,
                };
                let head_dim: int = embedding as int / (if heads == 0 { 1 } else { heads as int });
                let context: Option<int> = match spec_arch_field(items, arch, "context_length"@) {
                    Some(c) => Some(c as int),
                    None => None,
                };
                Some((blocks as int, kv_heads, head_dim, context))
            },
            _ => None,
        },
    }
}

/// Bytes of F16 keys and values cached per token, over all blocks and KV heads.
pub open spec fn kv_bytes_per_token(blocks: int, kv_heads: int, head_dim: int) -> int {
    2 * blocks * kv_heads * head_dim * 2
}

/// The KV-cache figures in exact arithmetic.
pub open spec fn spec_kv_cache(items: Seq<MetadataItem>) -> Option<(int, Option<int>, Option<int>)> {
    match spec_kv_parts(items) {
        Some((blocks, kv_heads, head_dim, context)) => {
            let per_token = kv_bytes_per_token(blocks, kv_heads, head_dim);
            Some(
                (
                    per_token,
                    context,
                    match context {
                        Some(c) => Some(per_token * c),
                        None => None,
                    },
                ),
            )
        },
        None => None,
    }
}

/// Every product the estimate forms along the way fits in 64 bits.
pub open spec fn kv_in_range(items: Seq<MetadataItem>) -> bool {
    match spec_kv_parts(items) {
        Some((blocks, kv_heads, head_dim, context)) => {
            &&& 2 * blocks * kv_heads <= u64::MAX
            &&& 2 * blocks * kv_heads * head_dim <= u64::MAX
            &&& kv_bytes_per_token(blocks, kv_heads, head_dim) <= u64::MAX
            &&& (context matches Some(c) ==> kv_bytes_per_token(blocks, kv_heads, head_dim) * c
                <= u64::MAX)
        },
        None => true,
    }
}

/// The estimate as stored, from its exact figures.
pub open spec fn kv_estimate_is(r: Option<KvCacheEstimate>, figures: Option<(int, Option<int>, Option<int>)>) -> bool {
    match figures {
        None => r is None,
        Some((per_token, context, at_max)) => r matches Some(e) && e.bytes_per_token == per_token
            && match context {
            Some(c) => e.context_length == Some(c as u64),
            None => e.context_length is None,
        } && match at_max {
            Some(m) => e.bytes_at_max_context == Some(m as u64),
            None => e.bytes_at_max_context is None,
        },
    }
}

/// The file declares an architecture and, under it, the block count, head
/// count and embedding length that the estimate needs.
pub open spec fn declares_kv_shape(items: Seq<MetadataItem>) -> bool {
    match spec_text_field(items, "general.architecture"@) {
        Some(arch) => {
            &&& spec_arch_field(items, arch, "block_count"@) is Some
            &&& spec_arch_field(items, arch, "attention.head_count"@) is Some
            &&& spec_arch_field(items, arch, "embedding_length"@) is Some
        },
        None => false,
    }
}

/// The context figures of an estimate follow the declared context length
/// alone: with `<arch>.context_length` declared as `c`, the context length
/// is `c` and the bytes at maximum context are `c` times the bytes per
/// token; without it, both are absent.
pub open spec fn context_figures(items: Seq<MetadataItem>, e: KvCacheEstimate) -> bool {
    match spec_text_field(items, "general.architecture"@) {
        Some(arch) => match spec_arch_field(items, arch, "context_length"@) {
            Some(c) => e.context_length == Some(c as u64) && e.bytes_at_max_context == Some(
                (e.bytes_per_token * c) as u64,
            ),
            None => e.context_length is None && e.bytes_at_max_context is None,
        },
        None => false,
    }
}

/// The KV-cache figures exist exactly when the architecture's shape is
/// declared, and their context figures follow the declared context length
/// alone, whatever else (such as the KV head count) is declared.
pub proof fn law_kv_context_follows_declaration(items: Seq<MetadataItem>)
    ensures
        spec_kv_cache(items) is Some <==> declares_kv_shape(items),
        spec_kv_cache(items) matches Some((per_token, context, at_max)) ==> match spec_text_field(
            items,
            "general.architecture"@,
        ) {
            Some(arch) => match spec_arch_field(items, arch, "context_length"@) {
                Some(c) => context == Some(c as int) && at_max == Some(per_token * c),
                None => context is None && at_max is None,
            },
            None => false,
        },
{
}

/// Whether [`estimate_kv_cache`] can form its products without overflow.
pub fn kv_estimate_fits(items: &Vec<MetadataItem>) -> (r: bool)
    ensures
        r == kv_in_range(items@),
{
    let arch = match text_field(items, "general.architecture") {
        Some(a) => a,
        None => return true,
    };
    let blocks = match arch_field(items, arch, "block_count") {
        Some(v) => v as u64,
        None => return true,
    };
    let heads = match arch_field(items, arch, "attention.head_count") {
        Some(v) => v as u64,
        None => return true,
    };
    let embedding = match arch_field(items, arch, "embedding_length") {
        Some(v) => v as u64,
        None => return true,
    };
    let kv_heads: u64 = match arch_field(items, arch, "attention.head_count_kv") {
        Some(v) => v as u64,
        None => heads,
    };
    let head_dim = embedding / if heads == 0 { 1 } else { heads };
    let a = 2 * blocks;
    let b = match a.checked_mul(kv_heads) {
        Some(x) => x,
        None => return false,
    };
    let c = match b.checked_mul(head_dim) {
        Some(x) => x,
        None => return false,
    };
    let per_token = match c.checked_mul(2) {
        Some(x) => x,
        None => return false,
    };
    match arch_field(items, arch, "context_length") {
        Some(ctx) => per_token.checked_mul(ctx as u64).is_some(),
        None => true,
    }
}

/// Estimates the KV-cache size from architecture metadata alone: the file's
/// `general.architecture` names the namespace of the fields read.
pub fn estimate_kv_cache(items: &Vec<MetadataItem>) -> (r: Option<KvCacheEstimate>)
    requires
        kv_in_range(items@),
    ensures
        kv_estimate_is(r, spec_kv_cache(items@)),
        r is Some <==> declares_kv_shape(items@),
        r matches Some(e) ==> context_figures(items@, e),
{
    let arch = text_field(items, "general.architecture")?;
    let blocks = arch_field(items, arch, "block_count")? as u64;
    let heads = arch_field(items, arch, "attention.head_count")? as u64;
    let embedding = arch_field(items, arch, "embedding_length")? as u64;
    let kv_heads: u64 = match arch_field(items, arch, "attention.head_count_kv") {
        Some(v) => v as u64,
        None => heads,
    };
    let head_dim = embedding / if heads == 0 { 1 } else { heads };
    let bytes_per_token = 2 * blocks * kv_heads * head_dim * 2;
    let context_length: Option<u64> = match arch_field(items, arch, "context_length") {
        Some(c) => Some(c as u64),
        None => None,
    };
    let bytes_at_max_context: Option<u64> = match context_length {
        Some(c) => Some(bytes_per_token * c),
        None => None,
    };
    Some(KvCacheEstimate { bytes_per_token, context_length, bytes_at_max_context })
}


/// The tokenizer family the file declares (`tokenizer.ggml.model`).
pub open spec fn spec_tokenizer_kind(items: Seq<MetadataItem>) -> Option<Seq<char>> {
    spec_text_field(items, "tokenizer.ggml.model"@)
}

/// The tokenizer family the file declares (`"gpt2"`, `"llama"`, ...).
pub fn tokenizer_kind(items: &Vec<MetadataItem>) -> (r: Option<String>)
    ensures
        match spec_tokenizer_kind(items@) {
            Some(t) => r matches Some(s) && s@ == t,
            None => r is None,
        },
{
    match text_field(items, "tokenizer.ggml.model") {
        Some(s) => Some(s.clone()),
        None => None,
    }
}

fn opt_as_str(s: &Option<String>) -> (r: Option<&str>)
    ensures
        opt_text(r) == match s {
            Some(t) => Some(t@),
            None => None::<Seq<char>>,
        },
{
    match s {
        Some(t) => Some(t.as_str()),
        None => None,
    }
}

/// The decoded text of the vocabulary entry whose id is stored under
/// `id_key`, when the id, the vocabulary and that entry are all present.
pub open spec fn spec_special_token(
    items: Seq<MetadataItem>,
    id_key: Seq<char>,
    kind: Option<Seq<char>>,
    reverse: Map<u32, u8>,
) -> Option<Seq<char>> {
    match spec_u32_field(items, id_key) {
        None => None,
        Some(id) => match meta_lookup(items, "tokenizer.ggml.tokens"@) {
            None => None,
            Some(tokens) => match spec_as_array(tokens) {
                None => None,
                Some(vocab) => if (id as int) < vocab.len() {
                    match spec_as_text(vocab[id as int]) {
                        Some(raw) => Some(spec_decode_vocab_token(raw, kind, reverse)),
                        None => None,
                    }
                } else {
                    None
                },
            },
        },
    }
}

/// Looks up one vocabulary entry by id and decodes it, without touching the
/// rest of the vocabulary.
pub fn resolve_special_token(
    items: &Vec<MetadataItem>,
    id_key: &str,
    kind: Option<&str>,
    reverse: &HashMap<u32, u8>,
) -> (r: Option<String>)
    ensures
        match spec_special_token(items@, id_key@, opt_text(kind), reverse@) {
            Some(t) => r matches Some(s) && s@ == t,
            None => r is None,
        },
{
    let id = u32_field(items, id_key)? as usize;
    let vocab = lookup(items, "tokenizer.ggml.tokens")?.as_array()?;
    if id >= vocab.len() {
        return None;
    }
    let raw = vocab[id].as_text()?;
    Some(decode_vocab_token(raw.as_str(), kind, reverse))
}

/// The special tokens that resolve, in the order BOS, EOS, UNK, PAD, each
/// with its label.
pub open spec fn spec_special_tokens(items: Seq<MetadataItem>) -> Seq<(Seq<char>, Seq<char>)> {
    let kind = spec_tokenizer_kind(items);
    let reverse = gpt2_reverse_map();
    labelled("BOS"@, spec_special_token(items, "tokenizer.ggml.bos_token_id"@, kind, reverse))
        + labelled("EOS"@, spec_special_token(items, "tokenizer.ggml.eos_token_id"@, kind, reverse))
        + labelled("UNK"@, spec_special_token(items, "tokenizer.ggml.unknown_token_id"@, kind, reverse))
        + labelled("PAD"@, spec_special_token(items, "tokenizer.ggml.padding_token_id"@, kind, reverse))
}

/// A one-entry list with the label when the text is present, else nothing.
pub open spec fn labelled(label: Seq<char>, text: Option<Seq<char>>) -> Seq<(Seq<char>, Seq<char>)> {
    match text {
        Some(t) => seq![(label, t)],
        None => seq![],
    }
}

/// The special tokens shown are exactly `expected`, in order.
pub open spec fn special_tokens_are(tokens: Seq<SpecialToken>, expected: Seq<(Seq<char>, Seq<char>)>) -> bool {
    &&& tokens.len() == expected.len()
    &&& forall|i: int|
        0 <= i < tokens.len() ==> (#[trigger] tokens[i]).label@ == expected[i].0 && tokens[i].text@
            == expected[i].1
}

/// The vocabulary entry whose id is stored (as a `u32`) under `id_key`,
/// decoded for the file's tokenizer, when that id indexes a string of
/// `tokenizer.ggml.tokens`.
pub open spec fn token_by_id(items: Seq<MetadataItem>, id_key: Seq<char>) -> Option<Seq<char>> {
    match (spec_u32_field(items, id_key), meta_lookup(items, "tokenizer.ggml.tokens"@)) {
        (Some(id), Some(tokens)) => match spec_as_array(tokens) {
            Some(vocab) => if (id as int) < vocab.len() {
                match spec_as_text(vocab[id as int]) {
                    Some(raw) => Some(spec_decode_vocab_token(raw, spec_tokenizer_kind(items), gpt2_reverse_map())),
                    None => None,
                }
            } else {
                None
            },
            None => None,
        },
        _ => None,
    }
}

/// Each shown special token as its label and text.
pub open spec fn token_pairs(tokens: Seq<SpecialToken>) -> Seq<(Seq<char>, Seq<char>)> {
    tokens.map_values(|t: SpecialToken| (t.label@, t.text@))
}

/// No entry carries `label`.
pub open spec fn lacks_label(entries: Seq<(Seq<char>, Seq<char>)>, label: Seq<char>) -> bool {
    forall|i: int| 0 <= i < entries.len() ==> (#[trigger] entries[i]).0 != label
}

/// An entry labelled `label` is present exactly when `text` is, and then
/// exactly one, carrying that text.
pub open spec fn labelled_once(entries: Seq<(Seq<char>, Seq<char>)>, label: Seq<char>, text: Option<Seq<char>>) -> bool {
    match text {
        Some(t) => exists|i: int|
            0 <= i < entries.len() && #[trigger] entries[i] == (label, t) && lacks_label(entries.remove(i), label),
        None => lacks_label(entries, label),
    }
}

proof fn lemma_lacks_concat(a: Seq<(Seq<char>, Seq<char>)>, b: Seq<(Seq<char>, Seq<char>)>, label: Seq<char>)
    requires
        lacks_label(a, label),
        lacks_label(b, label),
    ensures
        lacks_label(a + b, label),
{
    assert forall|i: int| 0 <= i < (a + b).len() implies (#[trigger] (a + b)[i]).0 != label by {
        if i < a.len() {
            assert((a + b)[i] == a[i]);
        } else {
            assert((a + b)[i] == b[i - a.len()]);
        }
    }
}

proof fn lemma_labelled_once(
    p: Seq<(Seq<char>, Seq<char>)>,
    label: Seq<char>,
    text: Option<Seq<char>>,
    q: Seq<(Seq<char>, Seq<char>)>,
)
    requires
        lacks_label(p, label),
        lacks_label(q, label),
    ensures
        labelled_once(p + labelled(label, text) + q, label, text),
{
    let s = p + labelled(label, text) + q;
    match text {
        Some(t) => {
            let i = p.len() as int;
            assert(s[i] == (label, t));
            assert(s.remove(i) =~= p + q);
            lemma_lacks_concat(p, q, label);
        },
        None => {
            assert(s =~= p + q);
            lemma_lacks_concat(p, q, label);
        },
    }
}

proof fn lemma_other_label(label: Seq<char>, other: Seq<char>, text: Option<Seq<char>>)
    requires
        label != other,
    ensures
        lacks_label(labelled(other, text), label),
{
}

/// Each special token is shown under its own label, read from its own key:
/// BOS from `tokenizer.ggml.bos_token_id`, EOS from `..eos_token_id`, UNK
/// from `..unknown_token_id` and PAD from `..padding_token_id`; a label is
/// shown, once, exactly when the id stored under its key indexes a string of
/// the vocabulary, with that string decoded.
pub proof fn law_special_tokens_by_label(items: Seq<MetadataItem>)
    ensures
        labelled_once(spec_special_tokens(items), "BOS"@, token_by_id(items, "tokenizer.ggml.bos_token_id"@)),
        labelled_once(spec_special_tokens(items), "EOS"@, token_by_id(items, "tokenizer.ggml.eos_token_id"@)),
        labelled_once(spec_special_tokens(items), "UNK"@, token_by_id(items, "tokenizer.ggml.unknown_token_id"@)),
        labelled_once(spec_special_tokens(items), "PAD"@, token_by_id(items, "tokenizer.ggml.padding_token_id"@)),
{
    reveal_strlit("BOS");
    reveal_strlit("EOS");
    reveal_strlit("UNK");
    reveal_strlit("PAD");
    let kind = spec_tokenizer_kind(items);
    let reverse = gpt2_reverse_map();
    let b = labelled("BOS"@, spec_special_token(items, "tokenizer.ggml.bos_token_id"@, kind, reverse));
    let e = labelled("EOS"@, spec_special_token(items, "tokenizer.ggml.eos_token_id"@, kind, reverse));
    let u = labelled("UNK"@, spec_special_token(items, "tokenizer.ggml.unknown_token_id"@, kind, reverse));
    let d = labelled("PAD"@, spec_special_token(items, "tokenizer.ggml.padding_token_id"@, kind, reverse));
    let s = spec_special_tokens(items);
    let none: Seq<(Seq<char>, Seq<char>)> = seq![];
    assert("BOS"@[0] != "EOS"@[0] && "BOS"@[0] != "UNK"@[0] && "BOS"@[0] != "PAD"@[0]);
    assert("EOS"@[0] != "UNK"@[0] && "EOS"@[0] != "PAD"@[0] && "UNK"@[0] != "PAD"@[0]);
    lemma_other_label("BOS"@, "EOS"@, spec_special_token(items, "tokenizer.ggml.eos_token_id"@, kind, reverse));
    lemma_other_label("BOS"@, "UNK"@, spec_special_token(items, "tokenizer.ggml.unknown_token_id"@, kind, reverse));
    lemma_other_label("BOS"@, "PAD"@, spec_special_token(items, "tokenizer.ggml.padding_token_id"@, kind, reverse));
    lemma_other_label("EOS"@, "BOS"@, spec_special_token(items, "tokenizer.ggml.bos_token_id"@, kind, reverse));
    lemma_other_label("EOS"@, "UNK"@, spec_special_token(items, "tokenizer.ggml.unknown_token_id"@, kind, reverse));
    lemma_other_label("EOS"@, "PAD"@, spec_special_token(items, "tokenizer.ggml.padding_token_id"@, kind, reverse));
    lemma_other_label("UNK"@, "BOS"@, spec_special_token(items, "tokenizer.ggml.bos_token_id"@, kind, reverse));
    lemma_other_label("UNK"@, "EOS"@, spec_special_token(items, "tokenizer.ggml.eos_token_id"@, kind, reverse));
    lemma_other_label("UNK"@, "PAD"@, spec_special_token(items, "tokenizer.ggml.padding_token_id"@, kind, reverse));
    lemma_other_label("PAD"@, "BOS"@, spec_special_token(items, "tokenizer.ggml.bos_token_id"@, kind, reverse));
    lemma_other_label("PAD"@, "EOS"@, spec_special_token(items, "tokenizer.ggml.eos_token_id"@, kind, reverse));
    lemma_other_label("PAD"@, "UNK"@, spec_special_token(items, "tokenizer.ggml.unknown_token_id"@, kind, reverse));
    // BOS
    lemma_lacks_concat(e, u, "BOS"@);
    lemma_lacks_concat(e + u, d, "BOS"@);
    lemma_labelled_once(none, "BOS"@, spec_special_token(items, "tokenizer.ggml.bos_token_id"@, kind, reverse), e + u + d);
    assert(none + b + (e + u + d) =~= s);
    // EOS
    lemma_lacks_concat(u, d, "EOS"@);
    lemma_labelled_once(b, "EOS"@, spec_special_token(items, "tokenizer.ggml.eos_token_id"@, kind, reverse), u + d);
    assert(b + e + (u + d) =~= s);
    // UNK
    lemma_lacks_concat(b, e, "UNK"@);
    lemma_labelled_once(b + e, "UNK"@, spec_special_token(items, "tokenizer.ggml.unknown_token_id"@, kind, reverse), d);
    // PAD
    lemma_lacks_concat(b, e, "PAD"@);
    lemma_lacks_concat(b + e, u, "PAD"@);
    lemma_labelled_once(b + e + u, "PAD"@, spec_special_token(items, "tokenizer.ggml.padding_token_id"@, kind, reverse), none);
    assert(b + e + u + d + none =~= s);
}

fn push_special(
    out: &mut Vec<SpecialToken>,
    items: &Vec<MetadataItem>,
    label: &str,
    id_key: &str,
    kind: Option<&str>,
    reverse: &HashMap<u32, u8>,
)
    ensures
        forall|e: Seq<(Seq<char>, Seq<char>)>|
            special_tokens_are(old(out)@, e) ==> special_tokens_are(
                final(out)@,
                e + labelled(label@, spec_special_token(items@, id_key@, opt_text(kind), reverse@)),
            ),
{
    if let Some(text) = resolve_special_token(items, id_key, kind, reverse) {
        out.push(SpecialToken { label: label.to_owned(), text });
    }
}

/// Resolves BOS/EOS/UNK/PAD to their decoded text (GGUF stores only their
/// vocabulary ids); those that do not resolve are left out.
pub fn resolve_special_tokens(items: &Vec<MetadataItem>) -> (r: Vec<SpecialToken>)
    ensures
        special_tokens_are(r@, spec_special_tokens(items@)),
        labelled_once(token_pairs(r@), "BOS"@, token_by_id(items@, "tokenizer.ggml.bos_token_id"@)),
        labelled_once(token_pairs(r@), "EOS"@, token_by_id(items@, "tokenizer.ggml.eos_token_id"@)),
        labelled_once(token_pairs(r@), "UNK"@, token_by_id(items@, "tokenizer.ggml.unknown_token_id"@)),
        labelled_once(token_pairs(r@), "PAD"@, token_by_id(items@, "tokenizer.ggml.padding_token_id"@)),
{
    let kind_owned = tokenizer_kind(items);
    let kind = opt_as_str(&kind_owned);
    let reverse = gpt2_unicode_to_byte();
    let mut out: Vec<SpecialToken> = Vec::new();
    assert(special_tokens_are(out@, seq![]));
    push_special(&mut out, items, "BOS", "tokenizer.ggml.bos_token_id", kind, &reverse);
    push_special(&mut out, items, "EOS", "tokenizer.ggml.eos_token_id", kind, &reverse);
    push_special(&mut out, items, "UNK", "tokenizer.ggml.unknown_token_id", kind, &reverse);
    push_special(&mut out, items, "PAD", "tokenizer.ggml.padding_token_id", kind, &reverse);
    assert(Seq::<(Seq<char>, Seq<char>)>::empty() + spec_special_tokens(items@) =~= spec_special_tokens(items@));
    proof {
        law_special_tokens_by_label(items@);
        assert(token_pairs(out@) =~= spec_special_tokens(items@));
    }
    out
}

/// The vocabulary labels: the first `expected` entries of
/// `tokenizer.ggml.tokens`, each decoded (an entry that is not a string is
/// shown as `?`); nothing when the vocabulary is missing.
pub open spec fn spec_token_strings(items: Seq<MetadataItem>, expected: nat) -> Seq<Seq<char>> {
    match meta_lookup(items, "tokenizer.ggml.tokens"@) {
        Some(tokens) => match spec_as_array(tokens) {
            Some(vocab) => Seq::new(
                if expected < vocab.len() { expected } else { vocab.len() },
                |i: int|
                    spec_decode_vocab_token(
                        match spec_as_text(vocab[i]) {
                            Some(t) => t,
                            None => "?"@,
                        },
                        spec_tokenizer_kind(items),
                        gpt2_reverse_map(),
                    ),
            ),
            None => seq![],
        },
        None => seq![],
    }
}

/// Reads the model's own token texts from `tokenizer.ggml.tokens`, decoded
/// for display, for at most `expected` entries.
pub fn read_token_strings(items: &Vec<MetadataItem>, expected: usize) -> (r: Vec<String>)
    ensures
        r.len() == spec_token_strings(items@, expected as nat).len(),
        forall|i: int| 0 <= i < r.len() ==> #[trigger] r@[i]@ == spec_token_strings(items@, expected as nat)[i],
{
    let vocab = match lookup(items, "tokenizer.ggml.tokens") {
        Some(v) => match v.as_array() {
            Some(a) => a,
            None => return Vec::new(),
        },
        None => return Vec::new(),
    };
    let kind_owned = tokenizer_kind(items);
    let kind = opt_as_str(&kind_owned);
    let reverse = gpt2_unicode_to_byte();
    let count = if expected < vocab.len() { expected } else { vocab.len() };
    let ghost spec = spec_token_strings(items@, expected as nat);
    let mut r: Vec<String> = Vec::new();
    let mut i: usize = 0;
    while i < count
        invariant
            count <= vocab.len(),
            spec.len() == count,
            spec == spec_token_strings(items@, expected as nat),
            spec_as_array(meta_lookup(items@, "tokenizer.ggml.tokens"@)->0) == Some(vocab@),
            opt_text(kind) == spec_tokenizer_kind(items@),
            reverse@ == gpt2_reverse_map(),
            i <= count,
            r.len() == i,
            forall|k: int| 0 <= k < i ==> #[trigger] r@[k]@ == spec[k],
        decreases count - i,
    {
        let question = String::from_str("?");
        let raw: &str = match vocab[i].as_text() {
            Some(t) => t.as_str(),
            None => question.as_str(),
        };
        r.push(decode_vocab_token(raw, kind, &reverse));
        i = i + 1;
    }
    r
}

/// The raw chat template, if the file has one.
pub fn chat_template(items: &Vec<MetadataItem>) -> (r: Option<String>)
    ensures
        match spec_text_field(items@, "tokenizer.chat_template"@) {
            Some(t) => r matches Some(s) && s@ == t,
            None => r is None,
        },
{
    match text_field(items, "tokenizer.chat_template") {
        Some(s) => Some(s.clone()),
        None => None,
    }
}

/// `a - b`, or zero when `b` is larger.
pub open spec fn saturating_difference(a: u64, b: u64) -> u64 {
    if a >= b {
        (a - b) as u64
    } else {
        0
    }
}

/// What [`compose`] can compute without overflow.
pub open spec fn composable(content: GgufContent) -> bool {
    &&& tensor_sizes_fit(content.tensors@)
    &&& kv_in_range(content.metadata@)
}

/// Whether [`compose`] can compute everything without overflow.
pub fn is_composable(content: &GgufContent) -> (r: bool)
    ensures
        r == composable(*content),
{
    let mut i: usize = 0;
    while i < content.tensors.len()
        invariant
            i <= content.tensors.len(),
            forall|k: int| 0 <= k < i ==> #[trigger] spec_descriptor_size(content.tensors@[k]) <= u64::MAX,
        decreases content.tensors.len() - i,
    {
        let t = &content.tensors[i];
        let blocks = t.elem_count / if t.block_size == 0 { 1 } else { t.block_size };
        if blocks.checked_mul(t.type_size).is_none() {
            assert(spec_descriptor_size(content.tensors@[i as int]) > u64::MAX);
            assert(!tensor_sizes_fit(content.tensors@));
            return false;
        }
        i = i + 1;
    }
    kv_estimate_fits(&content.metadata)
}

/// `r` is the composition of a GGUF file of `file_size` bytes with parsed
/// contents `content`: the three byte regions (fixed header, metadata and
/// tensor descriptors, tensor data), metadata sorted by key with values
/// shown, tensors largest first, chat template, special tokens and KV-cache
/// estimate.
pub open spec fn is_composition_of(r: GgufComposition, content: GgufContent, file_size: u64) -> bool {
    &&& r.version == spec_version_of(content.magic)
    &&& r.file_size == file_size
    &&& r.header_size == HEADER_SIZE
    &&& r.metadata_and_descriptors_size == saturating_difference(content.tensor_data_offset, HEADER_SIZE)
    &&& r.tensor_data_offset == content.tensor_data_offset
    &&& r.tensor_data_size == saturating_difference(file_size, content.tensor_data_offset)
    &&& exists|perm: Seq<usize>| metadata_shown_as(r.metadata@, content.metadata@, perm)
    &&& exists|perm: Seq<usize>| tensors_shown_as(r.tensors@, content.tensors@, perm)
    &&& match spec_text_field(content.metadata@, "tokenizer.chat_template"@) {
        Some(t) => r.chat_template matches Some(s) && s@ == t,
        None => r.chat_template is None,
    }
    &&& special_tokens_are(r.special_tokens@, spec_special_tokens(content.metadata@))
    &&& kv_estimate_is(r.kv_cache, spec_kv_cache(content.metadata@))
}

/// The composition of a GGUF file of `file_size` bytes from its parsed
/// contents.
pub fn compose(content: &GgufContent, file_size: u64) -> (r: GgufComposition)
    requires
        composable(*content),
    ensures
        is_composition_of(r, *content, file_size),
{
    let offset = content.tensor_data_offset;
    let metadata = sorted_metadata(&content.metadata);
    let tensors = sorted_tensors(&content.tensors);
    let r = GgufComposition {
        version: version_of(content.magic),
        file_size,
        header_size: HEADER_SIZE,
        metadata_and_descriptors_size: offset.saturating_sub(HEADER_SIZE),
        tensor_data_offset: offset,
        tensor_data_size: file_size.saturating_sub(offset),
        metadata,
        tensors,
        chat_template: chat_template(&content.metadata),
        special_tokens: resolve_special_tokens(&content.metadata),
        kv_cache: estimate_kv_cache(&content.metadata),
    };
    assert(r.metadata@ == metadata@);
    assert(r.tensors@ == tensors@);
    r
}


/// The three regions reported make up the whole file: fixed header, then
/// metadata and tensor descriptors up to the tensor data offset, then the
/// tensor data to the end (for a file whose tensor data starts after the
/// header and within the file).
pub proof fn law_regions_partition_file(tensor_data_offset: u64, file_size: u64)
    requires
        HEADER_SIZE <= tensor_data_offset <= file_size,
    ensures
        HEADER_SIZE + saturating_difference(tensor_data_offset, HEADER_SIZE) + saturating_difference(
            file_size,
            tensor_data_offset,
        ) == file_size,
{
}

} // verus!
