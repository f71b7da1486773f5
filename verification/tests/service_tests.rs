use inferra::bridge::{blank, forward_event, is_whitespace, prompt_messages, GenerateStreamEvent};
use inferra::cache::{serve_entry, ResponseCache};
use inferra::chat::{
    check_messages, default_true, embedded_model_info, first_choice_text, ChatMessage, GenerationEvent,
    InferenceError, Role,
};
use inferra::composition::read_token_strings;
use inferra::embedding::{candidate_rows, is_seed, near_rows, seed_indices, token_label};
use inferra::hub::{
    detail_fields, gguf_files_from_tree, search_query, sort_from_option, summarize_model, DetailFields, RawGgufInfo,
    RawModel, RawModelDetail, RawSibling, RawTreeEntry, SortBy,
};
use inferra::metadata::{MetaValue, MetadataItem};
use inferra::stream::{ChunkChoice, FinalChoice, StreamAction, StreamInput, StreamState};
use inferra::text::{ends_with, i64_to_string, str_equal, u64_to_string};

#[test]
fn user_messages_and_defaults() {
    let m = ChatMessage::user("hi".to_string());
    assert_eq!(m.role, Role::User);
    assert_eq!(m.content, "hi");
    assert!(default_true());
    let info = embedded_model_info(&"local-gguf".to_string());
    assert_eq!(info.backend, "mistral.rs (embedded)");
    assert_eq!(info.model_id, "local-gguf");
    assert_eq!(info.endpoint, None);
}

#[test]
fn error_messages_read_like_their_kind() {
    assert_eq!(InferenceError::InvalidRequest("x".into()).message(), "invalid request: x");
    assert_eq!(InferenceError::Unavailable("x".into()).message(), "backend unavailable: x");
    assert_eq!(InferenceError::Backend("x".into()).message(), "backend request failed: x");
    assert_eq!(
        InferenceError::InvalidResponse("x".into()).message(),
        "backend returned an invalid response: x"
    );
}

#[test]
fn requests_need_messages_and_responses_need_text() {
    assert_eq!(
        check_messages(&vec![]),
        Err(InferenceError::InvalidRequest("at least one message is required".into()))
    );
    assert_eq!(check_messages(&vec![ChatMessage::user("a".into())]), Ok(()));
    assert_eq!(first_choice_text(vec![]), Err(InferenceError::InvalidResponse("missing choice".into())));
    assert_eq!(
        first_choice_text(vec![FinalChoice { text: None, finish_reason: "stop".into() }]),
        Err(InferenceError::InvalidResponse("choice has no text".into()))
    );
    assert_eq!(
        first_choice_text(vec![
            FinalChoice { text: Some("Paris".into()), finish_reason: "stop".into() },
            FinalChoice { text: Some("other".into()), finish_reason: "length".into() },
        ]),
        Ok(("Paris".to_string(), "stop".to_string()))
    );
}

#[test]
fn blank_prompts_are_refused() {
    assert!(is_whitespace(' ') && is_whitespace('\t') && is_whitespace('\u{3000}'));
    assert!(!is_whitespace('a') && !is_whitespace('\u{200B}'));
    assert!(blank("") && blank(" \n\t\u{a0}"));
    assert!(!blank("  x "));
    assert_eq!(prompt_messages("   ".to_string()).unwrap_err(), "invalid request: prompt cannot be empty");
    let messages = prompt_messages(" What is the capital of France? ".to_string()).unwrap();
    assert_eq!(messages, vec![ChatMessage::user(" What is the capital of France? ".to_string())]);
}

#[test]
fn forwarding_stops_at_terminal_events() {
    let (e, terminal) = forward_event(GenerationEvent::<u8, u32>::Token { delta: "a".into(), logprob: Some(1) }, |r: u32| r + 1);
    assert!(!terminal);
    assert!(matches!(e, GenerateStreamEvent::Token { ref delta, logprob: Some(1) } if delta == "a"));
    let (e, terminal) = forward_event(GenerationEvent::<u8, u32>::Done { result: 41 }, |r: u32| r + 1);
    assert!(terminal);
    assert!(matches!(e, GenerateStreamEvent::Done { view: 42 }));
    let (e, terminal) = forward_event(GenerationEvent::<u8, u32>::Error { message: "boom".into() }, |r: u32| r + 1);
    assert!(terminal);
    assert!(matches!(e, GenerateStreamEvent::Error { ref message } if message == "boom"));
}

fn chunk(delta: Option<&str>, logprob: Option<i32>, finish: Option<&str>, usage: Option<u32>) -> StreamInput<i32, u32> {
    StreamInput::Chunk {
        usage,
        choice: Some(ChunkChoice {
            delta: delta.map(|d| d.to_string()),
            logprob,
            finish_reason: finish.map(|f| f.to_string()),
        }),
    }
}

fn run(greedy: bool, inputs: Vec<StreamInput<i32, u32>>) -> Vec<StreamAction<i32, u32>> {
    let mut state = StreamState::new(greedy);
    let mut actions = Vec::new();
    for input in inputs {
        let (next, action) = state.step(input);
        state = next;
        actions.push(action);
    }
    actions
}

#[test]
fn stream_running_dry_finishes_with_accumulated_text() {
    let actions = run(false, vec![
        chunk(Some("Par"), Some(-1), None, None),
        chunk(Some(""), None, None, None),
        StreamInput::Unrelated,
        chunk(Some("is"), None, Some("stop"), Some(7)),
        StreamInput::Chunk { usage: None, choice: None },
        StreamInput::End,
        StreamInput::End,
    ]);
    assert!(matches!(&actions[0], StreamAction::Token { delta, logprob: Some(-1) } if delta == "Par"));
    assert!(matches!(actions[1], StreamAction::Continue));
    assert!(matches!(actions[2], StreamAction::Continue));
    assert!(matches!(&actions[3], StreamAction::Token { delta, logprob: None } if delta == "is"));
    assert!(matches!(actions[4], StreamAction::Continue));
    assert!(matches!(&actions[5], StreamAction::Finish { text, finish_reason: Some(f), usage: Some(7) } if text == "Paris" && f == "stop"));
    assert!(matches!(actions[6], StreamAction::Continue));
}

#[test]
fn stream_final_response_and_errors_are_terminal() {
    let actions = run(false, vec![
        chunk(Some("Hel"), None, None, None),
        StreamInput::Final { choice: Some(FinalChoice { text: None, finish_reason: "length".into() }), usage: 3 },
        chunk(Some("lo"), None, None, None),
        StreamInput::End,
    ]);
    assert!(matches!(&actions[1], StreamAction::Finish { text, finish_reason: Some(f), usage: Some(3) } if text == "Hel" && f == "length"));
    assert!(matches!(actions[2], StreamAction::Continue));
    assert!(matches!(actions[3], StreamAction::Continue));

    let actions = run(false, vec![
        StreamInput::Final { choice: Some(FinalChoice { text: Some("full".into()), finish_reason: "stop".into() }), usage: 1 },
    ]);
    assert!(matches!(&actions[0], StreamAction::Finish { text, .. } if text == "full"));

    let actions = run(false, vec![
        chunk(Some("x"), None, None, None),
        StreamInput::Failure { message: "model error".into() },
        StreamInput::End,
    ]);
    assert!(matches!(&actions[1], StreamAction::Fail { message } if message == "model error"));
    assert!(matches!(actions[2], StreamAction::Continue));
}

#[test]
fn greedy_streams_report_no_logprobs() {
    let actions = run(true, vec![chunk(Some("a"), Some(-2), None, None), StreamInput::End]);
    assert!(matches!(&actions[0], StreamAction::Token { logprob: None, .. }));
    assert!(matches!(&actions[1], StreamAction::Finish { text, finish_reason: None, usage: None } if text == "a"));
}

#[test]
fn sort_options_and_query_values() {
    assert_eq!(sort_from_option("downloads"), Ok(SortBy::Downloads));
    assert_eq!(sort_from_option("likes"), Ok(SortBy::Likes));
    assert_eq!(sort_from_option("trending"), Ok(SortBy::Trending));
    assert_eq!(sort_from_option("recent"), Ok(SortBy::RecentlyUpdated));
    assert_eq!(sort_from_option("stars"), Err("unknown sort option 'stars'".to_string()));
    assert_eq!(SortBy::Downloads.as_query_value(), "downloads");
    assert_eq!(SortBy::Likes.as_query_value(), "likes");
    assert_eq!(SortBy::Trending.as_query_value(), "trendingScore");
    assert_eq!(SortBy::RecentlyUpdated.as_query_value(), "lastModified");
}

fn raw_model() -> RawModel {
    RawModel {
        id: "org/model-GGUF".into(),
        pipeline_tag: Some("text-generation".into()),
        downloads: 10,
        likes: 2,
        last_modified: None,
        siblings: vec![
            RawSibling { rfilename: "model-Q4_K_M.gguf".into() },
            RawSibling { rfilename: "README.md".into() },
            RawSibling { rfilename: "model-Q8_0.gguf".into() },
            RawSibling { rfilename: "gguf".into() },
        ],
    }
}

#[test]
fn search_results_count_gguf_files_and_take_detail_fields() {
    let detail = detail_fields(RawModelDetail {
        gguf: Some(RawGgufInfo { total: Some(494), architecture: Some("qwen2".into()), context_length: Some(32768) }),
    });
    let s = summarize_model(raw_model(), detail);
    assert_eq!(s.id, "org/model-GGUF");
    assert_eq!(s.gguf_file_count, 2);
    assert_eq!(s.parameter_count, Some(494));
    assert_eq!(s.architecture.as_deref(), Some("qwen2"));
    assert_eq!(s.context_length, Some(32768));
    assert!(detail_fields(RawModelDetail { gguf: None }).is_none());
    let s = summarize_model(raw_model(), None::<DetailFields>);
    assert_eq!(s.parameter_count, None);
    assert_eq!(s.architecture, None);
    assert_eq!(s.downloads, 10);
    assert_eq!(s.likes, 2);
}

#[test]
fn tree_listing_keeps_gguf_files_only() {
    let entries = vec![
        RawTreeEntry { kind: "file".into(), path: "a.gguf".into(), size: 5 },
        RawTreeEntry { kind: "directory".into(), path: "dir.gguf".into(), size: 0 },
        RawTreeEntry { kind: "file".into(), path: "config.json".into(), size: 1 },
        RawTreeEntry { kind: "file".into(), path: "b.gguf".into(), size: 7 },
    ];
    let files = gguf_files_from_tree(entries);
    assert_eq!(files.len(), 2);
    assert_eq!((files[0].filename.as_str(), files[0].size_bytes), ("a.gguf", 5));
    assert_eq!((files[1].filename.as_str(), files[1].size_bytes), ("b.gguf", 7));
}

#[test]
fn cache_serves_what_was_stored_until_it_expires() {
    let mut cache: ResponseCache<String, u32> = ResponseCache::new();
    let hour = 3_600_000_000_000u128;
    assert_eq!(cache.get_cached(&"k".to_string(), hour), None);
    cache.put_cached("k".to_string(), 1, hour);
    assert_eq!(cache.get_cached(&"k".to_string(), hour), Some(1));
    cache.put_cached("k".to_string(), 2, hour);
    assert_eq!(cache.get_cached(&"k".to_string(), hour), Some(2));
    assert_eq!(cache.get_cached(&"other".to_string(), hour), None);
    // a zero TTL turns caching off both ways
    assert_eq!(cache.get_cached(&"k".to_string(), 0), None);
    cache.put_cached("z".to_string(), 3, 0);
    assert_eq!(cache.get_cached(&"z".to_string(), hour), None);
}

#[test]
fn search_cache_keys_compare_all_parts() {
    let mut cache: ResponseCache<(String, String, usize), Vec<u8>> = ResponseCache::new();
    let ttl = 60_000_000_000u128;
    cache.put_cached(("q".into(), "likes".into(), 24), vec![1], ttl);
    assert_eq!(cache.get_cached(&("q".into(), "likes".into(), 24), ttl), Some(vec![1]));
    assert_eq!(cache.get_cached(&("q".into(), "likes".into(), 25), ttl), None);
    assert_eq!(cache.get_cached(&("q".into(), "downloads".into(), 24), ttl), None);
}

#[test]
fn embedding_rows_around_seeds() {
    assert_eq!(seed_indices(&[5, 50, 2, 5], 10), Ok(vec![5, 2, 5]));
    assert_eq!(
        seed_indices(&[50, 60], 10),
        Err("no valid seed token ids for a vocabulary of 10".to_string())
    );
    let seeds = vec![1, 3];
    assert!(is_seed(&seeds, 3) && !is_seed(&seeds, 2));
    assert_eq!(candidate_rows(5, &seeds), vec![0, 2, 4]);
    assert_eq!(near_rows(&seeds, &vec![4, 0, 2], 4), vec![1, 3, 4, 0]);
    assert_eq!(near_rows(&seeds, &vec![4, 0, 2], 1), vec![1, 3]);
    assert_eq!(near_rows(&seeds, &vec![4], 10), vec![1, 3, 4]);
    let tokens = vec!["a".to_string(), " b".to_string()];
    assert_eq!(token_label(&tokens, 1), " b");
    assert_eq!(token_label(&tokens, 7), "<token 7>");
}

#[test]
fn token_strings_are_decoded_and_limited() {
    let items = vec![
        MetadataItem { key: "tokenizer.ggml.model".into(), value: MetaValue::String("gpt2".into()) },
        MetadataItem {
            key: "tokenizer.ggml.tokens".into(),
            value: MetaValue::Array(vec![
                MetaValue::String("ĠThe".into()),
                MetaValue::U8(0),
                MetaValue::String("cat".into()),
            ]),
        },
    ];
    assert_eq!(read_token_strings(&items, 2), vec![" The".to_string(), "?".to_string()]);
    assert_eq!(read_token_strings(&items, 10).len(), 3);
    assert!(read_token_strings(&vec![], 10).is_empty());
}

#[test]
fn text_primitives() {
    assert_eq!(u64_to_string(0), "0");
    assert_eq!(u64_to_string(1234567890), "1234567890");
    assert_eq!(i64_to_string(-42), "-42");
    assert_eq!(i64_to_string(i64::MAX), "9223372036854775807");
    assert!(ends_with("a.gguf", ".gguf") && !ends_with("gguf", ".gguf") && ends_with("x", ""));
    assert!(str_equal("é", "é") && !str_equal("e", "é"));
}

#[test]
fn cached_values_are_served_only_while_fresh() {
    assert_eq!(serve_entry(&5u32, 10, 20), Some(5));
    assert_eq!(serve_entry(&5u32, 20, 20), None);
    assert_eq!(serve_entry(&5u32, 0, 0), None);
    assert_eq!(serve_entry(&"x".to_string(), 0, 1), Some("x".to_string()));
}

#[test]
fn search_query_asks_for_gguf_text_generation_models() {
    let q = search_query("qwen", SortBy::Trending, 25);
    let pairs: Vec<(&str, &str)> = q.iter().map(|(k, v)| (k.as_str(), v.as_str())).collect();
    assert_eq!(
        pairs,
        vec![
            ("search", "qwen"),
            ("filter", "gguf"),
            ("filter", "text-generation"),
            ("sort", "trendingScore"),
            ("direction", "-1"),
            ("limit", "25"),
            ("full", "true"),
        ]
    );
    assert_eq!(search_query("", SortBy::RecentlyUpdated, 0)[5].1, "0");
}
