use cortex::hasher::compute_sglang_page_hashes;
use cortex::hasher::digest::hex_encode;
use cortex::hasher::registry::TokenizationOutput;
use cortex::hasher::tokenizer::{anchor_token_ids_from_vocab, harness_anchor_indices, harness_anchor_pages, match_positions};
use cortex::hasher::{ChatMessage, HashConfig, TokenizerEngine, TokenizerError, TokenizerRegistry};
use sha2::{Digest, Sha256};

fn msg(role: &str, has_tool_calls: bool) -> ChatMessage {
    ChatMessage {
        role: role.to_string(),
        content: "x".to_string(),
        has_tool_calls,
    }
}

fn text_msg(role: &str, content: &str) -> ChatMessage {
    ChatMessage {
        role: role.to_string(),
        content: content.to_string(),
        has_tool_calls: false,
    }
}

const TOKENIZER_JSON: &str = r#"{
  "version": "1.0",
  "truncation": null,
  "padding": null,
  "added_tokens": [
    {"id": 3, "content": "<|im_end|>", "single_word": false, "lstrip": false, "rstrip": false, "normalized": false, "special": true}
  ],
  "normalizer": null,
  "pre_tokenizer": {"type": "Whitespace"},
  "post_processor": null,
  "decoder": null,
  "model": {
    "type": "WordLevel",
    "vocab": {"hello": 0, "world": 1, "[UNK]": 2, "<|im_end|>": 3, "</THINK>": 4},
    "unk_token": "[UNK]"
  }
}"#;

fn engine(template: Option<&str>) -> TokenizerEngine {
    match TokenizerEngine::from_bytes(TOKENIZER_JSON.as_bytes(), template.map(|t| t.to_string())) {
        Ok(e) => e,
        Err(e) => panic!("{}", e.message()),
    }
}

#[test]
fn test_hash_config_fingerprint_deterministic() {
    let c1 = HashConfig::new(
        "sglang",
        "v0.4.3",
        "meta-llama/Llama-3.1-8B-Instruct",
        "sha256:abc123",
        "sha256:def456",
        16,
        "sglang_recursive_sha256_v1",
    );
    let c2 = c1.clone();
    assert_eq!(c1.fingerprint(), c2.fingerprint());
}

#[test]
fn fingerprint_is_hex_sha256_of_fields() {
    let c = HashConfig::new("sglang", "v1", "m", "t", "c", 16, "alg");
    let mut pre: Vec<u8> = Vec::new();
    pre.extend_from_slice(&1u32.to_le_bytes());
    for part in ["sglang", "v1", "m", "t", "c"] {
        pre.extend_from_slice(&(part.len() as u64).to_le_bytes());
        pre.extend_from_slice(part.as_bytes());
    }
    pre.extend_from_slice(&16u64.to_le_bytes());
    pre.extend_from_slice(&3u64.to_le_bytes());
    pre.extend_from_slice(b"alg");
    let expected = hex::encode(Sha256::digest(&pre));
    assert_eq!(c.fingerprint(), expected);
    assert_eq!(c.fingerprint().len(), 64);
    let other = HashConfig::new("sglang", "v1", "m", "t", "c", 32, "alg");
    assert_ne!(c.fingerprint(), other.fingerprint());
}

#[test]
fn fingerprint_separates_fields() {
    let a = HashConfig::new("ab", "c", "m", "t", "c", 16, "alg");
    let b = HashConfig::new("a", "bc", "m", "t", "c", 16, "alg");
    assert_ne!(a.fingerprint(), b.fingerprint());
}

#[test]
fn hex_encode_is_lowercase_pairs() {
    assert_eq!(hex_encode(&[0x00, 0x0f, 0xa5, 0xff]), "000fa5ff");
    assert_eq!(hex_encode(&[]), "");
}

#[test]
fn test_tokenizer_registry_cache_key_deterministic() {
    let k1 = TokenizerRegistry::compute_text_cache_key("llama-3", "Hello world", 16);
    let k2 = TokenizerRegistry::compute_text_cache_key("llama-3", "Hello world", 16);
    assert_eq!(k1, k2);

    let k3 = TokenizerRegistry::compute_text_cache_key("qwen-2", "Hello world", 16);
    assert_ne!(k1, k3);

    let chat_msgs = vec![
        ChatMessage { role: "system".into(), content: "You are an assistant".into(), has_tool_calls: false },
        ChatMessage { role: "user".into(), content: "Hi".into(), has_tool_calls: false },
    ];
    let c1 = TokenizerRegistry::compute_chat_cache_key("qwen", &chat_msgs, None, 16);
    let c2 = TokenizerRegistry::compute_chat_cache_key("qwen", &chat_msgs, None, 16);
    assert_eq!(c1, c2);

    let tools_a = Some(r#"[{"type":"function","name":"read_file"}]"#);
    let tools_b = Some(r#"[{"type":"function","name":"write_file"}]"#);
    assert_ne!(
        TokenizerRegistry::compute_chat_cache_key("qwen", &chat_msgs, tools_a, 16),
        TokenizerRegistry::compute_chat_cache_key("qwen", &chat_msgs, tools_b, 16)
    );
    assert_eq!(
        TokenizerRegistry::compute_chat_cache_key("qwen", &chat_msgs, tools_a, 16),
        TokenizerRegistry::compute_chat_cache_key("qwen", &chat_msgs, tools_a, 16)
    );
}

#[test]
fn cache_keys_are_sha256_of_their_preimages() {
    let mut pre: Vec<u8> = Vec::new();
    pre.extend_from_slice(b"m");
    pre.extend_from_slice(&16u64.to_le_bytes());
    pre.extend_from_slice(b"txt");
    let expected: [u8; 32] = Sha256::digest(&pre).into();
    assert_eq!(TokenizerRegistry::compute_text_cache_key("m", "txt", 16), expected);

    let msgs = vec![text_msg("user", "hi")];
    let mut pre2: Vec<u8> = Vec::new();
    pre2.extend_from_slice(b"m");
    pre2.extend_from_slice(&16u64.to_le_bytes());
    pre2.extend_from_slice(b"user\0hi\x01");
    pre2.push(2);
    pre2.extend_from_slice(b"[]");
    let expected2: [u8; 32] = Sha256::digest(&pre2).into();
    assert_eq!(TokenizerRegistry::compute_chat_cache_key("m", &msgs, Some("[]"), 16), expected2);
}

#[test]
fn test_sglang_page_hashes_empty() {
    assert!(compute_sglang_page_hashes(&[], 16).is_empty());
    assert!(compute_sglang_page_hashes(&[1, 2, 3], 0).is_empty());
}

#[test]
fn test_sglang_page_hashes_deterministic() {
    let tokens: Vec<u32> = (0..64).collect();
    let hashes1 = compute_sglang_page_hashes(&tokens, 16);
    let hashes2 = compute_sglang_page_hashes(&tokens, 16);

    assert_eq!(hashes1.len(), 4);
    assert_eq!(hashes1, hashes2);
    assert_ne!(hashes1[0], hashes1[1]);
}

#[test]
fn test_sglang_golden_vectors() {
    let got = compute_sglang_page_hashes(&[1, 2, 3, 4], 4);
    assert_eq!(got, vec![-3488128144981237669_i64]);

    let got2 = compute_sglang_page_hashes(&[10, 20, 30, 40, 50, 60, 70, 80], 2);
    assert_eq!(
        got2,
        vec![
            978178666101069530_i64,
            -895308556211281782_i64,
            -8033692805846017938_i64,
            835415944263129316_i64,
        ]
    );
}

#[test]
fn page_hashes_ignore_trailing_partial_page_and_chain_on_prefix() {
    let full = compute_sglang_page_hashes(&[10, 20, 30, 40, 50, 60, 70, 80, 90], 2);
    assert_eq!(full.len(), 4);
    let prefix = compute_sglang_page_hashes(&[10, 20, 30, 40], 2);
    assert_eq!(&full[..2], &prefix[..]);
    let first_page: Vec<u8> = [10u32, 20].iter().flat_map(|t| t.to_le_bytes()).collect();
    let d = Sha256::digest(&first_page);
    let mut head = [0u8; 8];
    head.copy_from_slice(&d[..8]);
    assert_eq!(full[0], i64::from_be_bytes(head));
}

#[test]
fn harness_anchor_indices_follow_zene_rule() {
    let messages = vec![
        msg("system", false),
        msg("user", false),
        msg("assistant", true),
        msg("tool", false),
        msg("assistant", false),
        msg("user", false),
    ];
    assert_eq!(harness_anchor_indices(&messages), vec![1, 2, 5]);
}

#[test]
fn harness_anchor_indices_never_include_first_message() {
    let messages = vec![msg("user", false), msg("assistant", true)];
    assert_eq!(harness_anchor_indices(&messages), vec![1]);
    assert!(harness_anchor_indices(&[]).is_empty());
}

#[test]
fn harness_anchor_pages_align_boundaries_to_pages() {
    let messages = vec![msg("system", false), msg("user", false), msg("user", false)];
    let rendered = "<|im_start|>system\nx<|im_end|>\n<|im_start|>user\nx<|im_end|>\n<|im_start|>user\nx<|im_end|>\n";
    let offsets: Vec<(usize, usize)> = (0..20).map(|t| (t * 4, t * 4 + 4)).collect();
    let flags = harness_anchor_pages(&messages, rendered, &offsets, 16, 2).expect("chatml stream");
    assert_eq!(flags, vec![false, false]);

    let rendered2 = format!(
        "<|im_start|>system\nx<|im_end|>\n<|im_start|>user\nx<|im_end|>\n{}<|im_start|>user\nx",
        " ".repeat(64 - "<|im_start|>system\nx<|im_end|>\n<|im_start|>user\nx<|im_end|>\n".len())
    );
    let offsets2: Vec<(usize, usize)> = (0..20).map(|t| (t * 4, t * 4 + 4)).collect();
    let flags2 = harness_anchor_pages(&messages, &rendered2, &offsets2, 16, 2).expect("chatml stream");
    assert_eq!(flags2, vec![true, false]);
}

#[test]
fn harness_anchor_pages_rejects_non_chatml() {
    let messages = vec![msg("system", false), msg("user", false)];
    let offsets: Vec<(usize, usize)> = vec![(0, 4)];
    assert!(harness_anchor_pages(&messages, "no markers here", &offsets, 16, 1).is_none());
}

#[test]
fn harness_anchor_pages_slack_and_out_of_range_pages() {
    let messages = vec![msg("system", false), msg("user", false)];
    // Marker of message 1 at byte 19 => first token starting at or after it is 5 (starts at 20).
    let rendered = format!("<|im_start|>sys{}<|im_start|>user", "    ");
    let offsets: Vec<(usize, usize)> = (0..10).map(|t| (t * 4, t * 4 + 4)).collect();
    // page size 2: token 5 => rem 1 <= 3, page (5 - 1) / 2 - 1 = 1.
    assert_eq!(harness_anchor_pages(&messages, &rendered, &offsets, 2, 3), Some(vec![false, true, false]));
    // Only one page tracked: page 1 is out of range and ignored.
    assert_eq!(harness_anchor_pages(&messages, &rendered, &offsets, 2, 1), Some(vec![false]));
    // No token starts at or after the marker: nothing anchored.
    let short: Vec<(usize, usize)> = vec![(0, 4)];
    assert_eq!(harness_anchor_pages(&messages, &rendered, &short, 2, 2), Some(vec![false, false]));
}

#[test]
fn match_positions_are_non_overlapping() {
    assert_eq!(match_positions(b"aaaa", b"aa"), vec![0, 2]);
    assert_eq!(match_positions(b"abcab", b"ab"), vec![0, 3]);
    assert!(match_positions(b"a", b"ab").is_empty());
}

#[test]
fn anchor_ids_from_vocab_match_lowercased_patterns() {
    let vocab = vec![
        ("<|im_end|>".to_string(), 7u32),
        ("</THINK>".to_string(), 8),
        ("hello".to_string(), 9),
        ("<|EOT_ID|>".to_string(), 10),
        ("tool".to_string(), 11),
    ];
    let ids = anchor_token_ids_from_vocab(&vocab);
    let mut got: Vec<u32> = ids.into_iter().collect();
    got.sort();
    assert_eq!(got, vec![7, 8, 10]);
}

#[test]
fn engine_loads_and_flags_structural_tokens() {
    let e = engine(None);
    assert_eq!(e.anchor_vocab_size(), 2);
    assert_eq!(e.encode_text("hello world").unwrap(), vec![0, 1]);
    // page size 2: page 0 ends on <|im_end|>; page 1 has <|im_end|> just after it.
    assert_eq!(e.page_is_anchor(&[0, 3, 1, 1, 3], 2), vec![true, true]);
    assert_eq!(e.page_is_anchor(&[0, 1, 1], 2), vec![false]);
    assert!(e.page_is_anchor(&[0], 2).is_empty());
}

#[test]
fn engine_load_error() {
    match TokenizerEngine::from_bytes(b"not json", None) {
        Err(TokenizerError::LoadError(_)) => {}
        _ => panic!("expected a load error"),
    }
}

#[test]
fn fallback_rendering_without_template() {
    let e = engine(None);
    let msgs = vec![text_msg("user", "hello"), text_msg("assistant", "world")];
    let out = e.encode_chat_full(&msgs, None, true).unwrap();
    assert_eq!(out.rendered, "user: hello\nassistant: world\nassistant:\n");
    assert_eq!(out.token_ids.len(), out.offsets.len());
    let out2 = e.encode_chat_full(&msgs, None, false).unwrap();
    assert_eq!(out2.rendered, "user: hello\nassistant: world\n");
    assert_eq!(e.encode_chat(&msgs, false).unwrap(), out2.token_ids);
}

#[test]
fn template_rendering_with_tools() {
    let template = "{% for m in messages %}<|im_start|>{{ m.role }}\n{{ m.content }}<|im_end|>\n{% endfor %}{% if tools %}T{{ tools | length }}{% endif %}{% if add_generation_prompt %}<|im_start|>assistant\n{% endif %}";
    let e = engine(Some(template));
    let msgs = vec![text_msg("user", "hello")];
    let out = e.encode_chat_full(&msgs, Some(r#"[{"name":"a"},{"name":"b"}]"#), true).unwrap();
    assert_eq!(out.rendered, "<|im_start|>user\nhello<|im_end|>\nT2<|im_start|>assistant\n");
    let plain = e.encode_chat_full(&msgs, None, false).unwrap();
    assert_eq!(plain.rendered, "<|im_start|>user\nhello<|im_end|>\n");
}

#[test]
fn template_error_is_reported() {
    let e = engine(Some("{% for m in messages %}"));
    match e.encode_chat_with_tools(&[text_msg("user", "hi")], None, true) {
        Err(TokenizerError::TemplateError(_)) => {}
        _ => panic!("expected a template error"),
    }
}

#[test]
fn chat_anchor_flags_join_harness_pages() {
    let template = "{% for m in messages %}<|im_start|>{{ m.role }} {{ m.content }} {% endfor %}";
    let e = engine(Some(template));
    let msgs = vec![text_msg("system", "hello"), text_msg("user", "world")];
    let out = e.encode_chat_full(&msgs, None, false).unwrap();
    let base = e.page_is_anchor(&out.token_ids, 2);
    let joined = e.page_is_anchor_chat(&msgs, &out, 2);
    assert_eq!(joined.len(), base.len());
    let harness = harness_anchor_pages(&msgs, &out.rendered, &out.offsets, 2, base.len()).unwrap();
    for i in 0..base.len() {
        assert_eq!(joined[i], base[i] || harness[i]);
    }
}

#[test]
fn registry_tokenizes_hashes_and_caches() {
    let mut reg = TokenizerRegistry::new(0);
    assert!(!reg.contains_model("m"));
    assert!(reg.tokenize_and_hash_text("m", "hello world", 2).is_none());
    reg.register("m", engine(None));
    assert!(reg.contains_model("m"));

    let out = reg.tokenize_and_hash_text("m", "hello world hello <|im_end|>", 2).unwrap();
    assert_eq!(out.token_ids, vec![0, 1, 0, 3]);
    assert_eq!(out.page_hashes, compute_sglang_page_hashes(&[0, 1, 0, 3], 2));
    assert_eq!(out.page_is_anchor, vec![false, true]);

    let again = reg.tokenize_and_hash_text("m", "hello world hello <|im_end|>", 2).unwrap();
    assert_eq!(again.token_ids, out.token_ids);
    assert_eq!(again.page_hashes, out.page_hashes);

    assert_eq!(reg.tokenize_text("m", "hello world"), Some(vec![0, 1]));
    assert_eq!(reg.tokenize_chat("m", &[text_msg("hello", "world")]).map(|v| v.len()), Some(5));
    assert!(reg.tokenize_chat("other", &[text_msg("hello", "world")]).is_none());
}

#[test]
fn registry_chat_rendering_error_gives_none() {
    let mut reg = TokenizerRegistry::new(4);
    reg.register("m", engine(Some("{% if %}")));
    assert!(reg.tokenize_and_hash_chat("m", &[text_msg("user", "hi")], 16).is_none());
    assert!(reg
        .tokenize_and_hash_chat_with_tools("m", &[text_msg("user", "hi")], Some("[]"), 16)
        .is_none());
}

#[test]
fn registry_cache_evicts_least_recent_within_capacity() {
    let mut reg = TokenizerRegistry::new(1);
    reg.register("m", engine(None));
    let a = reg.tokenize_and_hash_text("m", "hello", 1).unwrap();
    let b = reg.tokenize_and_hash_text("m", "world", 1).unwrap();
    assert_eq!(a.token_ids, vec![0]);
    assert_eq!(b.token_ids, vec![1]);
    let a2 = reg.tokenize_and_hash_text("m", "hello", 1).unwrap();
    assert_eq!(a2.token_ids, a.token_ids);
}

#[test]
fn tokenization_output_from_tokens() {
    let e = engine(None);
    let out = TokenizationOutput::from_tokens(vec![3, 0, 1, 1], 2, &e);
    assert_eq!(out.page_hashes, compute_sglang_page_hashes(&[3, 0, 1, 1], 2));
    assert_eq!(out.page_is_anchor, vec![false, false]);
    let copy = out.clone();
    assert_eq!(copy.token_ids, out.token_ids);
}

#[test]
fn tokenizer_error_messages() {
    assert_eq!(TokenizerError::LoadError("x".into()).message(), "Failed to load tokenizer: x");
    assert_eq!(TokenizerError::EncodeError("y".into()).message(), "Tokenization failed: y");
    assert_eq!(TokenizerError::TemplateError("z".into()).message(), "Chat template rendering failed: z");
}

#[test]
fn registry_cache_put_keeps_other_entries_below_capacity() {
    let mut reg = TokenizerRegistry::new(2);
    reg.register("m", engine(None));
    let a = reg.tokenize_and_hash_text("m", "hello", 1).unwrap();
    let b = reg.tokenize_and_hash_text("m", "world", 1).unwrap();
    assert_eq!(a.token_ids, vec![0]);
    assert_eq!(b.token_ids, vec![1]);
    // A tokenizer with swapped ids replaces the model's: cached requests are
    // still answered from the cache, new ones by the new tokenizer.
    let swapped = TOKENIZER_JSON.replace("\"hello\": 0, \"world\": 1", "\"hello\": 1, \"world\": 0");
    reg.register("m", TokenizerEngine::from_bytes(swapped.as_bytes(), None).unwrap());
    assert_eq!(reg.tokenize_and_hash_text("m", "hello", 1).unwrap().token_ids, vec![0]);
    assert_eq!(reg.tokenize_and_hash_text("m", "world", 1).unwrap().token_ids, vec![1]);
    assert_eq!(reg.tokenize_and_hash_text("m", "hello world", 1).unwrap().token_ids, vec![1, 0]);
}
