use inferra::composition::{
    compose, estimate_kv_cache, kv_estimate_fits, tensor_byte_size, GgufContent, GgufMagic,
    TensorDescriptor,
};
use inferra::gguf_layout::check_layout;
use inferra::gguf_parse::{composition_from_bytes, composition_of, parse_gguf};
use inferra::gguf_header::{read_header_from, read_u32_le, read_u64_le, GgufHeader, HeaderError};
use inferra::metadata::{describe_value, MetaValue, MetadataItem};
use inferra::vocab::{decode_gpt2_bpe_token, decode_vocab_token, gpt2_byte_to_unicode, gpt2_unicode_to_byte};

#[test]
fn decodes_gpt2_byte_level_bpe_tokens() {
    let reverse = gpt2_unicode_to_byte();
    assert_eq!(decode_gpt2_bpe_token("ĠFrance", &reverse), " France");
    assert_eq!(decode_gpt2_bpe_token("Ġcap", &reverse), " cap");
    assert_eq!(decode_gpt2_bpe_token("hello", &reverse), "hello");
    assert_eq!(decode_gpt2_bpe_token("<|im_start|>", &reverse), "<|im_start|>");
    assert_eq!(decode_gpt2_bpe_token("β", &reverse), "β");
}

#[test]
fn reads_a_v3_header() {
    let mut bytes = Vec::new();
    bytes.extend_from_slice(b"GGUF");
    bytes.extend_from_slice(&3_u32.to_le_bytes());
    bytes.extend_from_slice(&42_u64.to_le_bytes());
    bytes.extend_from_slice(&17_u64.to_le_bytes());

    assert_eq!(read_header_from(&bytes).unwrap(), GgufHeader {
        version: 3,
        tensor_count: 42,
        metadata_kv_count: 17,
    });
}

#[test]
fn rejects_non_gguf_data() {
    assert!(read_header_from(b"NOPE").is_err());
}

fn header_bytes(version: u32) -> Vec<u8> {
    let mut bytes = Vec::new();
    bytes.extend_from_slice(b"GGUF");
    bytes.extend_from_slice(&version.to_le_bytes());
    bytes.extend_from_slice(&7_u64.to_le_bytes());
    bytes.extend_from_slice(&9_u64.to_le_bytes());
    bytes
}

#[test]
fn header_errors_name_the_first_missing_or_wrong_field() {
    assert_eq!(read_header_from(b"GGU"), Err(HeaderError::TruncatedMagic));
    assert_eq!(read_header_from(b"NOPE-and-more-bytes-here"), Err(HeaderError::NotGguf));
    assert_eq!(read_header_from(b"GGUF\x03\x00"), Err(HeaderError::TruncatedVersion));
    assert_eq!(read_header_from(&header_bytes(1)), Err(HeaderError::UnsupportedVersion(1)));
    assert_eq!(read_header_from(&header_bytes(4)), Err(HeaderError::UnsupportedVersion(4)));
    let full = header_bytes(2);
    assert_eq!(read_header_from(&full[..12]), Err(HeaderError::TruncatedTensorCount));
    assert_eq!(read_header_from(&full[..20]), Err(HeaderError::TruncatedMetadataCount));
    assert_eq!(
        read_header_from(&full).unwrap(),
        GgufHeader { version: 2, tensor_count: 7, metadata_kv_count: 9 }
    );
}

#[test]
fn header_ignores_bytes_after_the_header() {
    let mut bytes = header_bytes(3);
    bytes.extend_from_slice(&[0xff; 40]);
    assert_eq!(read_header_from(&bytes).unwrap().tensor_count, 7);
}

#[test]
fn little_endian_fields() {
    let bytes = [0x01, 0x02, 0x03, 0x04, 0x05, 0x06, 0x07, 0x08, 0x09];
    assert_eq!(read_u32_le(&bytes, 0), Some(0x0403_0201));
    assert_eq!(read_u32_le(&bytes, 5), Some(0x0908_0706));
    assert_eq!(read_u32_le(&bytes, 6), None);
    assert_eq!(read_u64_le(&bytes, 1), Some(0x0908_0706_0504_0302));
    assert_eq!(read_u64_le(&bytes, 2), None);
    assert_eq!(read_u64_le(&bytes, 100), None);
}

#[test]
fn byte_level_table_spells_space_as_g_dot() {
    let table = gpt2_byte_to_unicode();
    assert_eq!(table.len(), 256);
    assert_eq!(table[0x20], 'Ġ');
    assert_eq!(table[b'A' as usize], 'A');
    assert_eq!(table[0], '\u{100}');
    assert_eq!(table[0x7f], '\u{121}');
    assert_eq!(table[0xad], '\u{143}');
    assert_eq!(table[0xe9], 'é');
    let reverse = gpt2_unicode_to_byte();
    assert_eq!(reverse.len(), 256);
    for (b, c) in table.iter().enumerate() {
        assert_eq!(reverse.get(&(*c as u32)), Some(&(b as u8)));
    }
}

#[test]
fn byte_level_round_trip_of_multibyte_text() {
    let table = gpt2_byte_to_unicode();
    let reverse = gpt2_unicode_to_byte();
    let text = " naïve café ☕\n";
    let spelled: String = text.bytes().map(|b| table[b as usize]).collect();
    assert_ne!(spelled, text);
    assert_eq!(decode_gpt2_bpe_token(&spelled, &reverse), text);
}

#[test]
fn partial_multibyte_piece_decodes_lossily() {
    let table = gpt2_byte_to_unicode();
    let reverse = gpt2_unicode_to_byte();
    // the first byte of 'é' (0xC3 0xA9) alone is not valid UTF-8
    let piece: String = [0xC3u8].iter().map(|b| table[*b as usize]).collect();
    assert_eq!(decode_gpt2_bpe_token(&piece, &reverse), "\u{FFFD}");
}

#[test]
fn vocab_tokens_decode_by_tokenizer_family() {
    let reverse = gpt2_unicode_to_byte();
    assert_eq!(decode_vocab_token("ĠParis", Some("gpt2"), &reverse), " Paris");
    assert_eq!(decode_vocab_token("\u{2581}Paris\u{2581}is", Some("llama"), &reverse), " Paris is");
    assert_eq!(decode_vocab_token("ĠParis", Some("bert"), &reverse), "ĠParis");
    assert_eq!(decode_vocab_token("\u{2581}x", None, &reverse), "\u{2581}x");
}

fn item(key: &str, value: MetaValue) -> MetadataItem {
    MetadataItem { key: key.to_string(), value }
}

fn text(s: &str) -> MetaValue {
    MetaValue::String(s.to_string())
}

#[test]
fn describes_metadata_values() {
    assert_eq!(describe_value(&MetaValue::U8(7)), "7");
    assert_eq!(describe_value(&MetaValue::I8(-128)), "-128");
    assert_eq!(describe_value(&MetaValue::I64(i64::MIN)), "-9223372036854775808");
    assert_eq!(describe_value(&MetaValue::U64(u64::MAX)), "18446744073709551615");
    assert_eq!(describe_value(&MetaValue::U32(0)), "0");
    assert_eq!(describe_value(&MetaValue::F32("0.5".to_string())), "0.5");
    assert_eq!(describe_value(&MetaValue::Bool(true)), "true");
    assert_eq!(describe_value(&MetaValue::Bool(false)), "false");
    assert_eq!(describe_value(&text("llama")), "llama");
    let short = MetaValue::Array(vec![text("en"), text("fr"), MetaValue::I32(-3)]);
    assert_eq!(describe_value(&short), "en, fr, -3");
    let twenty = MetaValue::Array((0..20u32).map(MetaValue::U32).collect());
    assert_eq!(describe_value(&twenty).split(", ").count(), 20);
    let long = MetaValue::Array((0..21u32).map(MetaValue::U32).collect());
    assert_eq!(describe_value(&long), "[21 items]");
    assert_eq!(describe_value(&MetaValue::Array(vec![])), "");
}

#[test]
fn tensor_sizes_count_whole_blocks() {
    assert_eq!(tensor_byte_size(6, 1, 4), 24);
    assert_eq!(tensor_byte_size(4096, 32, 18), 2304);
    assert_eq!(tensor_byte_size(10, 0, 2), 20);
}

fn tensor(name: &str, shape: Vec<usize>, elem_count: u64, block: u64, type_size: u64) -> TensorDescriptor {
    TensorDescriptor {
        name: name.to_string(),
        shape,
        dtype: "F32".to_string(),
        elem_count,
        block_size: block,
        type_size,
    }
}

#[test]
fn composes_a_minimal_file() {
    let content = GgufContent {
        magic: GgufMagic::GgufV3,
        metadata: vec![item("general.architecture", text("llama"))],
        tensors: vec![tensor("token_embd.weight", vec![3, 2], 6, 1, 4)],
        tensor_data_offset: 96,
    };
    let composition = compose(&content, 120);
    assert_eq!(composition.version, 3);
    assert_eq!(composition.header_size, 24);
    assert_eq!(composition.metadata_and_descriptors_size, 72);
    assert_eq!(composition.metadata.len(), 1);
    assert_eq!(composition.metadata[0].key, "general.architecture");
    assert_eq!(composition.metadata[0].value, "llama");
    assert_eq!(composition.tensors.len(), 1);
    assert_eq!(composition.tensors[0].name, "token_embd.weight");
    assert_eq!(composition.tensors[0].shape, vec![3, 2]);
    assert_eq!(composition.tensors[0].byte_size, 24);
    assert_eq!(composition.tensor_data_size, 24);
    assert_eq!(composition.chat_template, None);
    assert!(composition.special_tokens.is_empty());
    assert_eq!(composition.kv_cache, None);
}

#[test]
fn composition_sorts_metadata_by_key_and_tensors_largest_first() {
    let content = GgufContent {
        magic: GgufMagic::GgufV2,
        metadata: vec![item("b", MetaValue::U8(2)), item("a.z", MetaValue::U8(1)), item("a", MetaValue::U8(0))],
        tensors: vec![
            tensor("small", vec![2], 2, 1, 4),
            tensor("big", vec![8], 8, 1, 4),
            tensor("tie", vec![2], 2, 1, 4),
        ],
        tensor_data_offset: 10,
    };
    let c = compose(&content, 5);
    let keys: Vec<&str> = c.metadata.iter().map(|e| e.key.as_str()).collect();
    assert_eq!(keys, vec!["a", "a.z", "b"]);
    let names: Vec<&str> = c.tensors.iter().map(|t| t.name.as_str()).collect();
    assert_eq!(names, vec!["big", "small", "tie"]);
    assert_eq!(c.version, 2);
    // saturating regions
    assert_eq!(c.metadata_and_descriptors_size, 0);
    assert_eq!(c.tensor_data_size, 0);
}

fn llama_metadata(with_kv_heads: bool, with_context: bool) -> Vec<MetadataItem> {
    let mut m = vec![
        item("general.architecture", text("qwen2")),
        item("qwen2.block_count", MetaValue::U32(24)),
        item("qwen2.attention.head_count", MetaValue::U32(14)),
        item("qwen2.embedding_length", MetaValue::U32(896)),
        item("tokenizer.ggml.model", text("gpt2")),
        item(
            "tokenizer.ggml.tokens",
            MetaValue::Array(vec![text("<|endoftext|>"), text("ĠHello"), MetaValue::U8(1), text("<|im_end|>")]),
        ),
        item("tokenizer.ggml.bos_token_id", MetaValue::U32(0)),
        item("tokenizer.ggml.eos_token_id", MetaValue::U32(3)),
        item("tokenizer.ggml.unknown_token_id", MetaValue::U32(2)),
        item("tokenizer.ggml.padding_token_id", MetaValue::U32(99)),
        item("tokenizer.chat_template", text("{{ messages }}")),
    ];
    if with_kv_heads {
        m.push(item("qwen2.attention.head_count_kv", MetaValue::U32(2)));
    }
    if with_context {
        m.push(item("qwen2.context_length", MetaValue::U32(32768)));
    }
    m
}

#[test]
fn kv_cache_estimate_uses_the_declared_architecture() {
    let m = llama_metadata(true, true);
    assert!(kv_estimate_fits(&m));
    let e = estimate_kv_cache(&m).unwrap();
    // 2 (K and V) * 24 blocks * 2 kv heads * 64 head dim * 2 bytes
    assert_eq!(e.bytes_per_token, 12288);
    assert_eq!(e.context_length, Some(32768));
    assert_eq!(e.bytes_at_max_context, Some(12288 * 32768));
}

#[test]
fn kv_heads_default_to_the_head_count() {
    let m = llama_metadata(false, false);
    let e = estimate_kv_cache(&m).unwrap();
    assert_eq!(e.bytes_per_token, 2 * 24 * 14 * 64 * 2);
    assert_eq!(e.context_length, None);
    assert_eq!(e.bytes_at_max_context, None);
}

#[test]
fn kv_cache_needs_architecture_fields() {
    assert!(estimate_kv_cache(&vec![item("general.architecture", text("mamba"))]).is_none());
    assert!(estimate_kv_cache(&vec![]).is_none());
    let wrong_type = vec![
        item("general.architecture", text("llama")),
        item("llama.block_count", MetaValue::U64(2)),
        item("llama.attention.head_count", MetaValue::U32(2)),
        item("llama.embedding_length", MetaValue::U32(8)),
    ];
    assert!(estimate_kv_cache(&wrong_type).is_none());
}

#[test]
fn kv_overflow_is_detected_before_estimating() {
    let m = vec![
        item("general.architecture", text("llama")),
        item("llama.block_count", MetaValue::U32(u32::MAX)),
        item("llama.attention.head_count", MetaValue::U32(1)),
        item("llama.embedding_length", MetaValue::U32(u32::MAX)),
        item("llama.attention.head_count_kv", MetaValue::U32(u32::MAX)),
    ];
    assert!(!kv_estimate_fits(&m));
}

#[test]
fn composition_reports_template_and_special_tokens() {
    let content = GgufContent {
        magic: GgufMagic::GgufV3,
        metadata: llama_metadata(true, true),
        tensors: vec![],
        tensor_data_offset: 24,
    };
    let c = compose(&content, 24);
    assert_eq!(c.chat_template.as_deref(), Some("{{ messages }}"));
    let labels: Vec<(&str, &str)> = c.special_tokens.iter().map(|t| (t.label.as_str(), t.text.as_str())).collect();
    // UNK points at a non-string entry and PAD past the vocabulary: both are left out
    assert_eq!(labels, vec![("BOS", "<|endoftext|>"), ("EOS", "<|im_end|>")]);
    assert_eq!(c.kv_cache.unwrap().bytes_per_token, 12288);
}

fn push_string(bytes: &mut Vec<u8>, s: &str) {
    bytes.extend_from_slice(&(s.len() as u64).to_le_bytes());
    bytes.extend_from_slice(s.as_bytes());
}

fn minimal_gguf() -> Vec<u8> {
    let mut bytes = Vec::new();
    bytes.extend_from_slice(b"GGUF");
    bytes.extend_from_slice(&3_u32.to_le_bytes());
    bytes.extend_from_slice(&1_u64.to_le_bytes()); // tensor_count
    bytes.extend_from_slice(&1_u64.to_le_bytes()); // metadata_kv_count

    push_string(&mut bytes, "general.architecture");
    bytes.extend_from_slice(&8u32.to_le_bytes()); // string
    push_string(&mut bytes, "llama");

    push_string(&mut bytes, "token_embd.weight");
    bytes.extend_from_slice(&2u32.to_le_bytes()); // n_dimensions
    bytes.extend_from_slice(&2u64.to_le_bytes());
    bytes.extend_from_slice(&3u64.to_le_bytes());
    bytes.extend_from_slice(&0u32.to_le_bytes()); // F32
    bytes.extend_from_slice(&0u64.to_le_bytes()); // offset

    let header_end = bytes.len() as u64;
    let aligned_start = header_end.div_ceil(32) * 32;
    bytes.resize(aligned_start as usize + 24, 0); // 2*3 f32 = 24 bytes
    bytes
}

#[test]
fn reads_a_full_composition() {
    let composition = composition_from_bytes(&minimal_gguf()).unwrap();

    assert_eq!(composition.version, 3);
    assert_eq!(composition.header_size, 24);
    assert_eq!(composition.metadata.len(), 1);
    assert_eq!(composition.metadata[0].key, "general.architecture");
    assert_eq!(composition.metadata[0].value, "llama");
    assert_eq!(composition.tensors.len(), 1);
    assert_eq!(composition.tensors[0].name, "token_embd.weight");
    // Dimensions are stored fastest-varying first and come back reversed.
    assert_eq!(composition.tensors[0].shape, vec![3, 2]);
    assert_eq!(composition.tensors[0].byte_size, 24);
    assert_eq!(composition.tensor_data_size, 24);
}

#[test]
fn parses_metadata_and_tensor_descriptors() {
    let bytes = minimal_gguf();
    let content = parse_gguf(&bytes).unwrap();
    assert_eq!(content.magic, GgufMagic::GgufV3);
    assert_eq!(content.tensor_data_offset as usize, bytes.len() - 24);
    assert_eq!(content.metadata.len(), 1);
    assert_eq!(content.metadata[0].key, "general.architecture");
    assert!(matches!(&content.metadata[0].value, MetaValue::String(s) if s == "llama"));
    assert_eq!(content.tensors.len(), 1);
    let t = &content.tensors[0];
    assert_eq!(t.name, "token_embd.weight");
    assert_eq!(t.shape, vec![3, 2]);
    assert_eq!(t.dtype, "F32");
    assert_eq!((t.elem_count, t.block_size, t.type_size), (6, 1, 4));
}

#[test]
fn parsing_refuses_what_is_not_gguf() {
    assert!(parse_gguf(b"not a gguf file at all").is_err());
    assert!(composition_from_bytes(b"GGUF").is_err());
    let mut wrong_version = minimal_gguf();
    wrong_version[4] = 9;
    assert!(composition_from_bytes(&wrong_version).is_err());
}

#[test]
fn oversized_tensors_are_an_overflow_error() {
    let content = GgufContent {
        magic: GgufMagic::GgufV3,
        metadata: vec![],
        tensors: vec![tensor("huge", vec![usize::MAX], u64::MAX, 1, 4)],
        tensor_data_offset: 32,
    };
    assert_eq!(composition_of(&content, 64), Err("attempt to multiply with overflow".to_string()));
    let fine = GgufContent {
        magic: GgufMagic::GgufV2,
        metadata: vec![],
        tensors: vec![tensor("small", vec![4], 4, 1, 4)],
        tensor_data_offset: 32,
    };
    let c = composition_of(&fine, 48).unwrap();
    assert_eq!((c.version, c.tensor_data_size, c.tensors[0].byte_size), (2, 16, 16));
}

fn gguf_with(entries: &[(&str, u32, Vec<u8>)], tensor_dims: &[u64]) -> Vec<u8> {
    let mut bytes = Vec::new();
    bytes.extend_from_slice(b"GGUF");
    bytes.extend_from_slice(&3_u32.to_le_bytes());
    bytes.extend_from_slice(&1_u64.to_le_bytes());
    bytes.extend_from_slice(&(entries.len() as u64).to_le_bytes());
    for (key, ty, value) in entries {
        push_string(&mut bytes, key);
        bytes.extend_from_slice(&ty.to_le_bytes());
        bytes.extend_from_slice(value);
    }
    push_string(&mut bytes, "t");
    bytes.extend_from_slice(&(tensor_dims.len() as u32).to_le_bytes());
    for d in tensor_dims {
        bytes.extend_from_slice(&d.to_le_bytes());
    }
    bytes.extend_from_slice(&0u32.to_le_bytes());
    bytes.extend_from_slice(&0u64.to_le_bytes());
    bytes.resize(bytes.len() + 64, 0);
    bytes
}

#[test]
fn layout_check_accepts_a_well_formed_file() {
    assert!(check_layout(&minimal_gguf()));
    assert!(check_layout(&gguf_with(&[("general.alignment", 4, 64u32.to_le_bytes().to_vec())], &[2])));
    assert!(parse_gguf(&gguf_with(&[("general.alignment", 4, 64u32.to_le_bytes().to_vec())], &[2])).is_ok());
}

#[test]
fn a_zero_alignment_is_refused_before_reading() {
    let bytes = gguf_with(&[("general.alignment", 4, 0u32.to_le_bytes().to_vec())], &[2]);
    assert!(!check_layout(&bytes));
    assert!(parse_gguf(&bytes).is_err());
    // the key with trailing zero bytes reads the same
    let bytes = gguf_with(&[("general.alignment\0", 0, vec![0])], &[2]);
    assert!(!check_layout(&bytes));
}

#[test]
fn declared_lengths_beyond_the_file_are_refused() {
    // an array of u8 claiming far more items than there are bytes
    let mut value = 0u32.to_le_bytes().to_vec();
    value.extend_from_slice(&(1u64 << 60).to_le_bytes());
    let bytes = gguf_with(&[("general.huge", 9, value)], &[2]);
    assert!(!check_layout(&bytes));
    assert!(composition_from_bytes(&bytes).is_err());
    // a string claiming more bytes than the file has
    let bytes = gguf_with(&[("general.name", 8, (1u64 << 40).to_le_bytes().to_vec())], &[2]);
    assert!(!check_layout(&bytes));
}

#[test]
fn deeply_nested_arrays_are_refused() {
    // array nesting seventeen levels deep, ending in an empty array of u8
    let mut value = Vec::new();
    for _ in 0..16 {
        value.extend_from_slice(&9u32.to_le_bytes());
        value.extend_from_slice(&1u64.to_le_bytes());
    }
    value.extend_from_slice(&0u32.to_le_bytes());
    value.extend_from_slice(&0u64.to_le_bytes());
    let bytes = gguf_with(&[("general.deep", 9, value.clone())], &[2]);
    assert!(!check_layout(&bytes));
    // one level less is accepted and converted
    let shallow = gguf_with(&[("general.deep", 9, value[12..].to_vec())], &[2]);
    assert!(check_layout(&shallow));
    let content = parse_gguf(&shallow).unwrap();
    assert_eq!(content.metadata.len(), 1);
}

#[test]
fn tensor_element_counts_that_overflow_are_refused() {
    let bytes = gguf_with(&[], &[u64::MAX, 2]);
    assert!(check_layout(&bytes));
    assert_eq!(parse_gguf(&bytes).err(), Some("a tensor's element count overflows".to_string()));
    let content = parse_gguf(&gguf_with(&[], &[0, u64::MAX, 2])).unwrap();
    assert_eq!(content.tensors[0].elem_count, 0);
    let content = parse_gguf(&gguf_with(&[], &[4, 5, 6])).unwrap();
    assert_eq!(content.tensors[0].elem_count, 120);
}
