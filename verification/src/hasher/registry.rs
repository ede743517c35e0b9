//! Tokenizers by model, with a bounded cache of tokenization results keyed
//! by a SHA-256 digest of the request.

use crate::bytes::{le_bytes_u64, push_all, push_u64_le};
use crate::hasher::digest::{sha256, sha256_spec};
use crate::hasher::sglang::{compute_sglang_page_hashes, page_count, page_hash};
use crate::hasher::tokenizer::{
    anchor_flags,
    lemma_chat_encoding_renders,
    render_result,
    opt_text,
    ChatMessage,
    TokenizerEngine,
    TokenizerError,
};
use dashmap::DashMap;
use lru::LruCache;
use std::collections::hash_map::RandomState;
use std::sync::Arc;
use vstd::prelude::*;
use vstd::utf8::encode_utf8;

verus! {

/// `lru::LruCache`, a map that holds at most a fixed number of entries and
/// evicts the least recently used one to make room. Proofs see nothing
/// inside it; [`cache_entries`] and [`cache_capacity`] name what it holds.
#[verifier::external_type_specification]
#[verifier::external_body]
#[verifier::reject_recursive_types(K)]
#[verifier::reject_recursive_types(V)]
#[verifier::reject_recursive_types(S)]
pub struct ExLruCache<K, V, S>(LruCache<K, V, S>);

/// A tokenization result as plain values: token ids, page hashes, page
/// anchor flags.
pub type OutputView = (Seq<u32>, Seq<i64>, Seq<bool>);

/// The result of tokenizing a request: its token ids with their page hashes
/// and page anchor flags.
#[derive(Debug)]
pub struct TokenizationOutput {
    pub token_ids: Vec<u32>,
    pub page_hashes: Vec<i64>,
    pub page_is_anchor: Vec<bool>,
}

impl View for TokenizationOutput {
    type V = OutputView;

    open spec fn view(&self) -> OutputView {
        (self.token_ids@, self.page_hashes@, self.page_is_anchor@)
    }
}

impl Clone for TokenizationOutput {
    fn clone(&self) -> (r: Self)
        ensures
            r@ == self@,
    {
        let r = TokenizationOutput {
            token_ids: self.token_ids.clone(),
            page_hashes: self.page_hashes.clone(),
            page_is_anchor: self.page_is_anchor.clone(),
        };
        assert(r.token_ids@ =~= self.token_ids@);
        assert(r.page_hashes@ =~= self.page_hashes@);
        assert(r.page_is_anchor@ =~= self.page_is_anchor@);
        r
    }
}

/// The page hashes of a token sequence.
pub open spec fn page_hash_seq(tokens: Seq<u32>, page_size: int) -> Seq<i64> {
    Seq::new(page_count(tokens, page_size) as nat, |i: int| page_hash(tokens, page_size, i as nat))
}

/// What tokenizing into `tokens` yields: the tokens, their page hashes and
/// their page anchor flags.
pub open spec fn output_of(tokens: Seq<u32>, page_size: int, anchors: Set<u32>) -> OutputView {
    (tokens, page_hash_seq(tokens, page_size), anchor_flags(tokens, page_size, anchors))
}

impl TokenizationOutput {
    /// Completes a tokenization from what the encoder gave: `None` when it
    /// failed, else the tokens with their page hashes and anchor flags.
    pub fn from_encoding(
        encoded: Result<Vec<u32>, TokenizerError>,
        page_size: usize,
        engine: &TokenizerEngine,
    ) -> (r: Option<Self>)
        requires
            page_size > 0,
        ensures
            match encoded {
                Ok(tokens) => r matches Some(o) && o@ == output_of(tokens@, page_size as int, engine.anchor_ids()),
                Err(_) => r is None,
            },
    {
        match encoded {
            Ok(tokens) => Some(Self::from_tokens(tokens, page_size, engine)),
            Err(_) => None,
        }
    }

    /// Completes a tokenization: hashes the pages of `tokens` and flags the
    /// anchored ones.
    pub fn from_tokens(tokens: Vec<u32>, page_size: usize, engine: &TokenizerEngine) -> (r: Self)
        requires
            page_size > 0,
        ensures
            r@ == output_of(tokens@, page_size as int, engine.anchor_ids()),
    {
        let page_hashes = compute_sglang_page_hashes(tokens.as_slice(), page_size);
        let page_is_anchor = engine.page_is_anchor(tokens.as_slice(), page_size);
        let r = TokenizationOutput { token_ids: tokens, page_hashes, page_is_anchor };
        assert(r.page_hashes@ =~= page_hash_seq(r.token_ids@, page_size as int));
        r
    }
}

/// What a tokenizer contributes to the contracts: its chat template and its
/// structural token ids.
pub type EngineView = (Option<Seq<char>>, Set<u32>);

/// The view of a tokenizer.
pub open spec fn engine_view(e: TokenizerEngine) -> EngineView {
    (e.template(), e.anchor_ids())
}

/// The tokenizers held by a model table, by model id.
pub uninterp spec fn registered_engines(m: DashMap<String, Arc<TokenizerEngine>>) -> Map<
    Seq<char>,
    EngineView,
>;

/// `DashMap::new`: an empty model table.
#[verifier::external_body]
fn engines_new() -> (r: DashMap<String, Arc<TokenizerEngine>>)
    ensures
        registered_engines(r).dom() == Set::<Seq<char>>::empty(),
{
    DashMap::new()
}

/// `DashMap::insert`: `model` now maps to `engine`, in place of any
/// earlier one.
#[verifier::external_body]
fn engines_insert(m: &mut DashMap<String, Arc<TokenizerEngine>>, model: String, engine: Arc<TokenizerEngine>)
    ensures
        registered_engines(*final(m)) == registered_engines(*old(m)).insert(model@, engine_view(*engine)),
{
    m.insert(model, engine);
}

/// `DashMap::contains_key`.
#[verifier::external_body]
fn engines_contain(m: &DashMap<String, Arc<TokenizerEngine>>, model: &str) -> (r: bool)
    ensures
        r == registered_engines(*m).dom().contains(model@),
{
    m.contains_key(model)
}

/// `DashMap::get`: a shared handle on the tokenizer of `model`, if any.
#[verifier::external_body]
fn engines_get(m: &DashMap<String, Arc<TokenizerEngine>>, model: &str) -> (r: Option<Arc<TokenizerEngine>>)
    ensures
        match r {
            Some(e) => registered_engines(*m).dom().contains(model@) && engine_view(*e) == registered_engines(*m)[model@],
            None => !registered_engines(*m).dom().contains(model@),
        },
{
    m.get(model).map(|entry| entry.value().clone())
}

/// The entries of a tokenization cache, by key digest.
pub uninterp spec fn cache_entries(c: LruCache<[u8; 32], TokenizationOutput, RandomState>) -> Map<Seq<u8>, OutputView>;

/// The number of entries a tokenization cache was made to hold.
pub uninterp spec fn cache_capacity(c: LruCache<[u8; 32], TokenizationOutput, RandomState>) -> nat;

/// What a cache holds after `put(k, v)`: `k` maps to `v`; when `k` was
/// absent and the cache full, one other entry (the least recently used) is
/// gone.
pub open spec fn put_outcome(
    pre: Map<Seq<u8>, OutputView>,
    post: Map<Seq<u8>, OutputView>,
    k: Seq<u8>,
    v: OutputView,
    cap: nat,
) -> bool {
    if pre.contains_key(k) || pre.len() < cap {
        post == pre.insert(k, v)
    } else {
        exists|e: Seq<u8>| pre.contains_key(e) && e != k && post == pre.insert(k, v).remove(e)
    }
}

/// `LruCache::with_hasher`: an empty cache that holds at most `cap` entries.
#[verifier::external_body]
fn cache_new(cap: usize) -> (r: LruCache<[u8; 32], TokenizationOutput, RandomState>)
    requires
        cap > 0,
    ensures
        cache_entries(r).dom() == Set::<Seq<u8>>::empty(),
        cache_capacity(r) == cap,
{
    LruCache::with_hasher(std::num::NonZeroUsize::new(cap).unwrap(), RandomState::new())
}

/// `LruCache::get`, cloning the entry: marks it most recently used, which
/// changes no entry.
#[verifier::external_body]
fn cache_get(c: &mut LruCache<[u8; 32], TokenizationOutput, RandomState>, k: &[u8; 32]) -> (r: Option<TokenizationOutput>)
    ensures
        cache_entries(*final(c)) == cache_entries(*old(c)),
        cache_capacity(*final(c)) == cache_capacity(*old(c)),
        match r {
            Some(o) => cache_entries(*old(c)).contains_key(k@) && o@ == cache_entries(*old(c))[k@],
            None => !cache_entries(*old(c)).contains_key(k@),
        },
{
    c.get(k).cloned()
}

/// `LruCache::put`: see [`put_outcome`]; the cache never holds more than its
/// capacity.
#[verifier::external_body]
fn cache_put(c: &mut LruCache<[u8; 32], TokenizationOutput, RandomState>, k: [u8; 32], v: TokenizationOutput)
    ensures
        cache_capacity(*final(c)) == cache_capacity(*old(c)),
        put_outcome(cache_entries(*old(c)), cache_entries(*final(c)), k@, v@, cache_capacity(*old(c))),
        cache_entries(*final(c)).dom().finite(),
        cache_entries(*final(c)).len() <= cache_capacity(*final(c)),
{
    c.put(k, v);
}

/// The bytes digested for a raw-text cache key: model id, page size (eight
/// little-endian bytes), text.
pub open spec fn text_key_preimage(model_id: Seq<char>, text: Seq<char>, page_size: usize) -> Seq<u8> {
    encode_utf8(model_id) + le_bytes_u64(page_size as u64) + encode_utf8(text)
}

/// The bytes of the first `n` messages in a chat cache key: role, a zero
/// byte, content, a one byte.
pub open spec fn messages_key_bytes(msgs: Seq<ChatMessage>, n: int) -> Seq<u8>
    decreases n,
{
    if n <= 0 {
        Seq::empty()
    } else {
        messages_key_bytes(msgs, n - 1) + encode_utf8(msgs[n - 1].role@) + seq![0u8] + encode_utf8(
            msgs[n - 1].content@,
        ) + seq![1u8]
    }
}

/// The bytes digested for a chat cache key: model id, page size, the
/// messages, then a two byte and the tool schema when there is one.
pub open spec fn chat_key_preimage(
    model_id: Seq<char>,
    msgs: Seq<ChatMessage>,
    tools: Option<Seq<char>>,
    page_size: usize,
) -> Seq<u8> {
    encode_utf8(model_id) + le_bytes_u64(page_size as u64) + messages_key_bytes(msgs, msgs.len() as int)
        + match tools {
        Some(t) => seq![2u8] + encode_utf8(t),
        None => Seq::empty(),
    }
}

/// A cached result is internally consistent: its hashes and flags are those
/// of its tokens for some page size and anchor set.
pub open spec fn consistent_output(v: OutputView) -> bool {
    exists|ps: int, anchors: Set<u32>| ps > 0 && v == #[trigger] output_of(v.0, ps, anchors)
}

/// Tokenizers by model, and a bounded cache of tokenization results.
pub struct TokenizerRegistry {
    tokenizers: DashMap<String, Arc<TokenizerEngine>>,
    cache: LruCache<[u8; 32], TokenizationOutput, RandomState>,
}

impl TokenizerRegistry {
    /// The tokenizers by model id.
    pub closed spec fn engines(&self) -> Map<Seq<char>, EngineView> {
        registered_engines(self.tokenizers)
    }

    /// The cached results by key digest.
    pub closed spec fn cached(&self) -> Map<Seq<u8>, OutputView> {
        cache_entries(self.cache)
    }

    /// The most results the cache holds.
    pub closed spec fn capacity(&self) -> nat {
        cache_capacity(self.cache)
    }

    /// The cache is finite, within its capacity, and holds consistent
    /// results only.
    pub closed spec fn wf(&self) -> bool {
        &&& self.cached().dom().finite()
        &&& self.cached().len() <= self.capacity()
        &&& self.capacity() > 0
        &&& forall|k: Seq<u8>| #[trigger] self.cached().contains_key(k) ==> consistent_output(self.cached()[k])
    }

    /// What a cached tokenization returns and leaves behind: a hit returns
    /// the cached result and changes nothing; an unknown model gives `None`;
    /// otherwise the tokenizer ran, and either it failed (`None`, nothing
    /// cached) or its tokens were hashed and flagged and the result cached.
    pub open spec fn lookup_outcome(
        pre: TokenizerRegistry,
        post: TokenizerRegistry,
        key: Seq<u8>,
        model: Seq<char>,
        page_size: int,
        r: Option<TokenizationOutput>,
    ) -> bool {
        &&& post.engines() == pre.engines()
        &&& post.capacity() == pre.capacity()
        &&& if pre.cached().contains_key(key) {
            r matches Some(o) && o@ == pre.cached()[key] && post.cached() == pre.cached()
        } else if !pre.engines().contains_key(model) {
            r is None && post.cached() == pre.cached()
        } else {
            match r {
                None => post.cached() == pre.cached(),
                Some(o) => (exists|t: Seq<u32>|
                    o@ == #[trigger] output_of(t, page_size, pre.engines()[model].1))
                    && put_outcome(pre.cached(), post.cached(), key, o@, pre.capacity()),
            }
        }
    }

    /// An empty registry whose cache holds `cache_capacity` results, or
    /// 10000 when that is zero.
    pub fn new(cache_capacity: usize) -> (r: Self)
        ensures
            r.wf(),
            r.engines().dom() == Set::<Seq<char>>::empty(),
            r.cached().dom() == Set::<Seq<u8>>::empty(),
            r.capacity() == if cache_capacity == 0 {
                10000
            } else {
                cache_capacity
            },
    {
        let cap = if cache_capacity == 0 {
            10000
        } else {
            cache_capacity
        };
        let r = TokenizerRegistry { tokenizers: engines_new(), cache: cache_new(cap) };
        assert(r.cached().dom() =~= Set::<Seq<u8>>::empty());
        r
    }

    /// Registers the tokenizer of a model, in place of any earlier one.
    pub fn register(&mut self, model_id: &str, engine: TokenizerEngine)
        requires
            old(self).wf(),
        ensures
            final(self).wf(),
            final(self).engines() == old(self).engines().insert(model_id@, engine_view(engine)),
            final(self).cached() == old(self).cached(),
            final(self).capacity() == old(self).capacity(),
    {
        engines_insert(&mut self.tokenizers, model_id.to_owned(), Arc::new(engine));
    }

    /// Whether a tokenizer is registered for the model.
    pub fn contains_model(&self, model_id: &str) -> (r: bool)
        ensures
            r == self.engines().contains_key(model_id@),
    {
        engines_contain(&self.tokenizers, model_id)
    }

    /// The cache key of a raw-text request: the SHA-256 digest of
    /// [`text_key_preimage`].
    pub fn compute_text_cache_key(model_id: &str, text: &str, page_size: usize) -> (r: [u8; 32])
        ensures
            r@ == sha256_spec(text_key_preimage(model_id@, text@, page_size)),
    {
        let mut buf: Vec<u8> = Vec::new();
        push_all(&mut buf, model_id.as_bytes());
        push_u64_le(&mut buf, page_size as u64);
        push_all(&mut buf, text.as_bytes());
        assert(buf@ =~= text_key_preimage(model_id@, text@, page_size));
        sha256(buf.as_slice())
    }

    /// The cache key of a chat request: the SHA-256 digest of
    /// [`chat_key_preimage`].
    pub fn compute_chat_cache_key(
        model_id: &str,
        messages: &[ChatMessage],
        tools_json: Option<&str>,
        page_size: usize,
    ) -> (r: [u8; 32])
        ensures
            r@ == sha256_spec(chat_key_preimage(model_id@, messages@, opt_text(tools_json), page_size)),
    {
        let mut buf: Vec<u8> = Vec::new();
        push_all(&mut buf, model_id.as_bytes());
        push_u64_le(&mut buf, page_size as u64);
        let ghost head = buf@;
        let mut i: usize = 0;
        while i < messages.len()
            invariant
                i <= messages@.len(),
                buf@ == head + messages_key_bytes(messages@, i as int),
            decreases messages@.len() - i,
        {
            push_all(&mut buf, messages[i].role.as_str().as_bytes());
            buf.push(0u8);
            push_all(&mut buf, messages[i].content.as_str().as_bytes());
            buf.push(1u8);
            assert(buf@ =~= head + messages_key_bytes(messages@, i + 1));
            i += 1;
        }
        match tools_json {
            Some(t) => {
                buf.push(2u8);
                push_all(&mut buf, t.as_bytes());
            },
            None => {},
        }
        assert(buf@ =~= chat_key_preimage(model_id@, messages@, opt_text(tools_json), page_size));
        sha256(buf.as_slice())
    }

    proof fn lemma_put_keeps_wf(pre: TokenizerRegistry, post: TokenizerRegistry, key: Seq<u8>, v: OutputView)
        requires
            pre.wf(),
            consistent_output(v),
            post.capacity() == pre.capacity(),
            post.cached().dom().finite(),
            post.cached().len() <= post.capacity(),
            put_outcome(pre.cached(), post.cached(), key, v, pre.capacity()),
        ensures
            post.wf(),
    {
        assert forall|k: Seq<u8>| #[trigger] post.cached().contains_key(k) implies consistent_output(
            post.cached()[k],
        ) by {
            if k != key {
                assert(pre.cached().contains_key(k));
            }
        }
    }

    fn store(&mut self, key: [u8; 32], output: &TokenizationOutput)
        requires
            old(self).wf(),
            consistent_output(output@),
        ensures
            final(self).wf(),
            final(self).engines() == old(self).engines(),
            final(self).capacity() == old(self).capacity(),
            put_outcome(old(self).cached(), final(self).cached(), key@, output@, old(self).capacity()),
    {
        let ghost pre = *self;
        cache_put(&mut self.cache, key, output.clone());
        proof {
            Self::lemma_put_keeps_wf(pre, *self, key@, output@);
        }
    }

    /// Tokenizes raw text and hashes its pages, answering from the cache when
    /// the same request was seen: see [`Self::lookup_outcome`], with the key
    /// of [`Self::compute_text_cache_key`].
    pub fn tokenize_and_hash_text(&mut self, model_id: &str, text: &str, page_size: usize) -> (r: Option<
        TokenizationOutput,
    >)
        requires
            old(self).wf(),
            page_size > 0,
        ensures
            final(self).wf(),
            Self::lookup_outcome(
                *old(self),
                *final(self),
                sha256_spec(text_key_preimage(model_id@, text@, page_size)),
                model_id@,
                page_size as int,
                r,
            ),
            !old(self).cached().contains_key(sha256_spec(text_key_preimage(model_id@, text@, page_size))) ==> (r matches Some(
                o,
            ) ==> exists|e: TokenizerEngine, t: Vec<u32>|
                engine_view(e) == old(self).engines()[model_id@] && t@ == o.token_ids@ && #[trigger] call_ensures(
                    TokenizerEngine::encode_text,
                    (&e, text),
                    Ok::<Vec<u32>, TokenizerError>(t),
                )),
    {
        let key = Self::compute_text_cache_key(model_id, text, page_size);
        match cache_get(&mut self.cache, &key) {
            Some(cached) => {
                return Some(cached);
            },
            None => {},
        }
        let engine = match engines_get(&self.tokenizers, model_id) {
            Some(e) => e,
            None => {
                return None;
            },
        };
        let encode = TokenizerEngine::encode_text;
        let encoded = encode(&*engine, text);
        let ghost enc = encoded;
        match TokenizationOutput::from_encoding(encoded, page_size, &engine) {
            Some(output) => {
                assert(enc matches Ok(t) && t@ == output.token_ids@);
                assert(output@ == output_of(output@.0, page_size as int, engine.anchor_ids()));
                assert(engine_view(*engine).1 == engine.anchor_ids());
                assert(output@ == output_of(output@.0, page_size as int, self.engines()[model_id@].1));
                assert(consistent_output(output@));
                self.store(key, &output);
                Some(output)
            },
            None => None,
        }
    }

    /// Tokenizes chat messages without a tool schema: see
    /// [`Self::tokenize_and_hash_chat_with_tools`].
    pub fn tokenize_and_hash_chat(&mut self, model_id: &str, messages: &[ChatMessage], page_size: usize) -> (r:
        Option<TokenizationOutput>)
        requires
            old(self).wf(),
            page_size > 0,
        ensures
            final(self).wf(),
            Self::lookup_outcome(
                *old(self),
                *final(self),
                sha256_spec(chat_key_preimage(model_id@, messages@, None, page_size)),
                model_id@,
                page_size as int,
                r,
            ),
            !old(self).cached().contains_key(sha256_spec(chat_key_preimage(model_id@, messages@, None, page_size)))
                && old(self).engines().contains_key(model_id@) && render_result(
                old(self).engines()[model_id@].0,
                messages@,
                None,
                true,
            ) is Err ==> r is None,
            !old(self).cached().contains_key(sha256_spec(chat_key_preimage(model_id@, messages@, None, page_size)))
                ==> (r matches Some(o) ==> exists|e: TokenizerEngine, t: Vec<u32>|
                engine_view(e) == old(self).engines()[model_id@] && t@ == o.token_ids@ && #[trigger] call_ensures(
                    TokenizerEngine::encode_chat_with_tools,
                    (&e, messages, None::<&str>, true),
                    Ok::<Vec<u32>, TokenizerError>(t),
                )),
    {
        self.tokenize_and_hash_chat_with_tools(model_id, messages, None, page_size)
    }

    /// Renders (with the tool schema, as engines do) and tokenizes chat
    /// messages and hashes their pages, answering from the cache when the
    /// same request was seen: see [`Self::lookup_outcome`], with the key of
    /// [`Self::compute_chat_cache_key`]. A rendering error gives `None`.
    pub fn tokenize_and_hash_chat_with_tools(
        &mut self,
        model_id: &str,
        messages: &[ChatMessage],
        tools_json: Option<&str>,
        page_size: usize,
    ) -> (r: Option<TokenizationOutput>)
        requires
            old(self).wf(),
            page_size > 0,
        ensures
            final(self).wf(),
            Self::lookup_outcome(
                *old(self),
                *final(self),
                sha256_spec(chat_key_preimage(model_id@, messages@, opt_text(tools_json), page_size)),
                model_id@,
                page_size as int,
                r,
            ),
            !old(self).cached().contains_key(
                sha256_spec(chat_key_preimage(model_id@, messages@, opt_text(tools_json), page_size)),
            ) && old(self).engines().contains_key(model_id@) && render_result(
                old(self).engines()[model_id@].0,
                messages@,
                opt_text(tools_json),
                true,
            ) is Err ==> r is None,
            !old(self).cached().contains_key(
                sha256_spec(chat_key_preimage(model_id@, messages@, opt_text(tools_json), page_size)),
            ) ==> (r matches Some(o) ==> exists|e: TokenizerEngine, t: Vec<u32>|
                engine_view(e) == old(self).engines()[model_id@] && t@ == o.token_ids@ && #[trigger] call_ensures(
                    TokenizerEngine::encode_chat_with_tools,
                    (&e, messages, tools_json, true),
                    Ok::<Vec<u32>, TokenizerError>(t),
                )),
            !old(self).cached().contains_key(
                sha256_spec(chat_key_preimage(model_id@, messages@, opt_text(tools_json), page_size)),
            ) && r is Some ==> render_result(
                old(self).engines()[model_id@].0,
                messages@,
                opt_text(tools_json),
                true,
            ) is Ok,
    {
        let key = Self::compute_chat_cache_key(model_id, messages, tools_json, page_size);
        match cache_get(&mut self.cache, &key) {
            Some(cached) => {
                return Some(cached);
            },
            None => {},
        }
        let engine = match engines_get(&self.tokenizers, model_id) {
            Some(e) => e,
            None => {
                return None;
            },
        };
        let encode = TokenizerEngine::encode_chat_with_tools;
        let encoded = encode(&*engine, messages, tools_json, true);
        let ghost enc = encoded;
        assert(call_ensures(TokenizerEngine::encode_chat_with_tools, (&*engine, messages, tools_json, true), enc));
        match TokenizationOutput::from_encoding(encoded, page_size, &engine) {
            Some(output) => {
                assert(enc matches Ok(t) && t@ == output.token_ids@);
                proof {
                    lemma_chat_encoding_renders(&*engine, messages, tools_json, true, enc->Ok_0);
                }
                assert(output@ == output_of(output@.0, page_size as int, engine.anchor_ids()));
                assert(engine_view(*engine).1 == engine.anchor_ids());
                assert(output@ == output_of(output@.0, page_size as int, self.engines()[model_id@].1));
                assert(consistent_output(output@));
                self.store(key, &output);
                Some(output)
            },
            None => None,
        }
    }

    /// The token ids of raw text, at page size 16.
    pub fn tokenize_text(&mut self, model_id: &str, text: &str) -> (r: Option<Vec<u32>>)
        requires
            old(self).wf(),
        ensures
            final(self).wf(),
            exists|o: Option<TokenizationOutput>|
                Self::lookup_outcome(
                    *old(self),
                    *final(self),
                    sha256_spec(text_key_preimage(model_id@, text@, 16)),
                    model_id@,
                    16,
                    o,
                ) && match o {
                    Some(out) => r matches Some(ids) && ids@ == out@.0,
                    None => r is None,
                },
    {
        let o = self.tokenize_and_hash_text(model_id, text, 16);
        match o {
            Some(out) => Some(out.token_ids),
            None => None,
        }
    }

    /// The token ids of chat messages, at page size 16.
    pub fn tokenize_chat(&mut self, model_id: &str, messages: &[ChatMessage]) -> (r: Option<Vec<u32>>)
        requires
            old(self).wf(),
        ensures
            final(self).wf(),
            exists|o: Option<TokenizationOutput>|
                Self::lookup_outcome(
                    *old(self),
                    *final(self),
                    sha256_spec(chat_key_preimage(model_id@, messages@, None, 16)),
                    model_id@,
                    16,
                    o,
                ) && match o {
                    Some(out) => r matches Some(ids) && ids@ == out@.0,
                    None => r is None,
                },
    {
        let o = self.tokenize_and_hash_chat(model_id, messages, 16);
        match o {
            Some(out) => Some(out.token_ids),
            None => None,
        }
    }
}

/// A result put in the cache is what the next lookup of the same key gets
/// back, whatever was evicted to make room.
pub proof fn lemma_put_then_hit(
    pre: Map<Seq<u8>, OutputView>,
    post: Map<Seq<u8>, OutputView>,
    k: Seq<u8>,
    v: OutputView,
    cap: nat,
)
    requires
        put_outcome(pre, post, k, v, cap),
    ensures
        post.contains_key(k),
        post[k] == v,
{
    if !(pre.contains_key(k) || pre.len() < cap) {
        let e = choose|e: Seq<u8>| pre.contains_key(e) && e != k && post == pre.insert(k, v).remove(e);
        assert(post.contains_key(k));
    }
}

/// A put changes no entry but the one written and, at most, one evicted.
pub proof fn lemma_put_spares_others(
    pre: Map<Seq<u8>, OutputView>,
    post: Map<Seq<u8>, OutputView>,
    k: Seq<u8>,
    v: OutputView,
    cap: nat,
    other: Seq<u8>,
)
    requires
        put_outcome(pre, post, k, v, cap),
        other != k,
        post.contains_key(other),
    ensures
        pre.contains_key(other),
        post[other] == pre[other],
{
    if !(pre.contains_key(k) || pre.len() < cap) {
        let e = choose|e: Seq<u8>| pre.contains_key(e) && e != k && post == pre.insert(k, v).remove(e);
        assert(post.contains_key(other));
    }
}

} // verus!
