//! Tokenization with semantic page anchors.
//!
//! A page is *anchored* when its end coincides with a structural boundary of
//! the conversation: a structural special token (turn end, thinking end,
//! tool marker) at its very end or just after it, or a harness-declared block
//! (a user turn, an assistant tool-call group) starting within a few tokens
//! after it.

use crate::ids::same_text;
use crate::json::{find_key, json_decode, json_parse, lemma_key_index_range, obj_get, JsonValue};
use minijinja::Value;
use serde_json::Value as SerdeJson;
use std::collections::HashSet;
use tokenizers::Tokenizer;
use vstd::prelude::*;
use vstd::string::StringExecFns;
use vstd::utf8::encode_utf8;

verus! {

broadcast use vstd::std_specs::hash::group_hash_axioms;

/// Why tokenization failed.
#[derive(Debug, Clone)]
pub enum TokenizerError {
    LoadError(String),
    EncodeError(String),
    TemplateError(String),
}

impl TokenizerError {
    /// The error's message.
    pub fn message(&self) -> (r: String)
        ensures
            r@ == match self {
                TokenizerError::LoadError(m) => "Failed to load tokenizer: "@ + m@,
                TokenizerError::EncodeError(m) => "Tokenization failed: "@ + m@,
                TokenizerError::TemplateError(m) => "Chat template rendering failed: "@ + m@,
            },
    {
        let (prefix, detail) = match self {
            TokenizerError::LoadError(m) => ("Failed to load tokenizer: ", m),
            TokenizerError::EncodeError(m) => ("Tokenization failed: ", m),
            TokenizerError::TemplateError(m) => ("Chat template rendering failed: ", m),
        };
        let mut out = prefix.to_owned();
        out.append(detail.as_str());
        out
    }
}

/// One chat message.
#[derive(Debug, Clone)]
pub struct ChatMessage {
    pub role: String,
    pub content: String,
    /// Whether the message carries tool calls.
    pub has_tool_calls: bool,
}

/// A rendered and tokenized chat, with the byte span of each token in the
/// rendered text.
#[derive(Debug, Clone)]
pub struct ChatEncodeOutput {
    pub token_ids: Vec<u32>,
    pub offsets: Vec<(usize, usize)>,
    pub rendered: String,
}

/// Tokens past a page end within which a harness block start still anchors
/// the page (trailing whitespace or newline tokens after the boundary).
pub const ANCHOR_PAGE_SLACK: usize = 3;

/// A harness-declared block starts at this message: a user turn, or an
/// assistant message that carries tool calls.
pub open spec fn starts_harness_block(m: ChatMessage) -> bool {
    m.role@ == "user"@ || (m.role@ == "assistant"@ && m.has_tool_calls)
}

/// Indices, in increasing order, of the messages among the first `n` that
/// start a harness block; the first message (the system prompt) never does.
pub open spec fn harness_indices_upto(msgs: Seq<ChatMessage>, n: int) -> Seq<usize>
    decreases n,
{
    if n <= 1 {
        Seq::empty()
    } else if starts_harness_block(msgs[n - 1]) {
        harness_indices_upto(msgs, n - 1).push((n - 1) as usize)
    } else {
        harness_indices_upto(msgs, n - 1)
    }
}

/// Indices of the messages that start harness-declared blocks.
pub fn harness_anchor_indices(messages: &[ChatMessage]) -> (r: Vec<usize>)
    ensures
        r@ == harness_indices_upto(messages@, messages@.len() as int),
{
    let mut out: Vec<usize> = Vec::new();
    let mut i: usize = 1;
    if messages.len() == 0 {
        return out;
    }
    while i < messages.len()
        invariant
            1 <= i <= messages@.len(),
            out@ == harness_indices_upto(messages@, i as int),
        decreases messages@.len() - i,
    {
        let m = &messages[i];
        let is_user = same_text(m.role.as_str(), "user");
        let is_assistant = same_text(m.role.as_str(), "assistant");
        if is_user || (is_assistant && m.has_tool_calls) {
            out.push(i);
        }
        i += 1;
    }
    out
}

/// The harness anchor indices are exactly the positions past the first whose
/// message starts a harness block, in strictly increasing order.
pub proof fn lemma_harness_indices_characterized(msgs: Seq<ChatMessage>, n: int)
    requires
        0 <= n <= msgs.len() <= usize::MAX,
    ensures
        forall|k: int|
            0 <= k < msgs.len() ==> (harness_indices_upto(msgs, n).contains(k as usize) <==> 1 <= k
                < n && starts_harness_block(msgs[k])),
        forall|a: int, b: int|
            0 <= a < b < harness_indices_upto(msgs, n).len() ==> harness_indices_upto(msgs, n)[a]
                < harness_indices_upto(msgs, n)[b],
        forall|a: int|
            0 <= a < harness_indices_upto(msgs, n).len() ==> 1 <= #[trigger] harness_indices_upto(msgs, n)[a]
                < n,
    decreases n,
{
    if n > 1 {
        lemma_harness_indices_characterized(msgs, n - 1);
        let prev = harness_indices_upto(msgs, n - 1);
        let cur = harness_indices_upto(msgs, n);
        assert forall|k: int| 0 <= k < msgs.len() implies (cur.contains(k as usize) <==> 1 <= k < n
            && starts_harness_block(msgs[k])) by {
            if starts_harness_block(msgs[n - 1]) {
                assert(cur == prev.push((n - 1) as usize));
                if cur.contains(k as usize) && k != n - 1 {
                    let w = choose|w: int| 0 <= w < cur.len() && cur[w] == k as usize;
                    assert(prev[w] == k as usize);
                }
                if 1 <= k < n - 1 && starts_harness_block(msgs[k]) {
                    let w = choose|w: int| 0 <= w < prev.len() && prev[w] == k as usize;
                    assert(cur[w] == k as usize);
                }
                if k == n - 1 {
                    assert(cur[cur.len() - 1] == k as usize);
                }
            }
        }
    }
}

/// `pat` occurs in `s` at position `i`.
pub open spec fn occurs_at(s: Seq<u8>, pat: Seq<u8>, i: int) -> bool {
    0 <= i && i + pat.len() <= s.len() && s.subrange(i, i + pat.len()) == pat
}

/// The positions of the non-overlapping occurrences of a non-empty `pat` in
/// `s` at or after `i`, found left to right: after a match the search
/// resumes past it.
pub open spec fn match_positions_from(s: Seq<u8>, pat: Seq<u8>, i: int) -> Seq<int>
    decreases s.len() - i,
{
    if pat.len() == 0 || i < 0 || i + pat.len() > s.len() {
        Seq::empty()
    } else if occurs_at(s, pat, i) {
        seq![i] + match_positions_from(s, pat, i + pat.len())
    } else {
        match_positions_from(s, pat, i + 1)
    }
}

/// The bytes of the ChatML message marker `<|im_start|>`.
pub open spec fn chatml_marker() -> Seq<u8> {
    seq![60u8, 124, 105, 109, 95, 115, 116, 97, 114, 116, 124, 62]
}

fn chatml_marker_bytes() -> (r: Vec<u8>)
    ensures
        r@ == chatml_marker(),
{
    let r: Vec<u8> = vec![60u8, 124, 105, 109, 95, 115, 116, 97, 114, 116, 124, 62];
    assert(r@ =~= chatml_marker());
    r
}

fn occurs_at_exec(s: &[u8], pat: &[u8], i: usize) -> (r: bool)
    requires
        i + pat.len() <= s.len(),
    ensures
        r == occurs_at(s@, pat@, i as int),
{
    let mut j: usize = 0;
    while j < pat.len()
        invariant
            i + pat.len() <= s.len(),
            j <= pat@.len(),
            forall|k: int| 0 <= k < j ==> s@[i + k] == pat@[k],
        decreases pat@.len() - j,
    {
        if s[i + j] != pat[j] {
            assert(s@.subrange(i as int, i + pat@.len())[j as int] != pat@[j as int]);
            return false;
        }
        j += 1;
    }
    assert(s@.subrange(i as int, i + pat@.len()) =~= pat@);
    true
}

/// Positions of the non-overlapping occurrences of a non-empty `pat` in `s`.
pub fn match_positions(s: &[u8], pat: &[u8]) -> (r: Vec<usize>)
    requires
        pat@.len() > 0,
    ensures
        r@.map_values(|p: usize| p as int) == match_positions_from(s@, pat@, 0),
{
    let mut out: Vec<usize> = Vec::new();
    let mut i: usize = 0;
    let m = pat.len();
    while i <= s.len() && m <= s.len() - i
        invariant
            m == pat@.len(),
            m > 0,
            i <= s@.len() + m,
            out@.map_values(|p: usize| p as int) + match_positions_from(s@, pat@, i as int)
                == match_positions_from(s@, pat@, 0),
        decreases s@.len() + m - i,
    {
        let ghost before = out@;
        if occurs_at_exec(s, pat, i) {
            out.push(i);
            proof {
                assert(out@.map_values(|p: usize| p as int) =~= before.map_values(|p: usize| p as int)
                    + seq![i as int]);
                assert(out@.map_values(|p: usize| p as int) + match_positions_from(s@, pat@, i + m)
                    =~= before.map_values(|p: usize| p as int) + match_positions_from(s@, pat@, i as int));
            }
            i += m;
        } else {
            i += 1;
        }
    }
    proof {
        assert(match_positions_from(s@, pat@, i as int) =~= Seq::<int>::empty());
        assert(out@.map_values(|p: usize| p as int) =~= out@.map_values(|p: usize| p as int)
            + match_positions_from(s@, pat@, i as int));
    }
    out
}

/// The first token at or after `from` whose span starts at or after `pos`.
pub open spec fn first_start_at_or_after(offsets: Seq<(usize, usize)>, pos: int, from: int) -> Option<int>
    decreases offsets.len() - from,
{
    if from < 0 || from >= offsets.len() {
        None
    } else if offsets[from].0 >= pos {
        Some(from)
    } else {
        first_start_at_or_after(offsets, pos, from + 1)
    }
}

fn first_token_at_or_after(offsets: &[(usize, usize)], pos: usize) -> (r: Option<usize>)
    ensures
        match r {
            Some(t) => first_start_at_or_after(offsets@, pos as int, 0) == Some(t as int),
            None => first_start_at_or_after(offsets@, pos as int, 0) is None,
        },
{
    let mut t: usize = 0;
    while t < offsets.len()
        invariant
            t <= offsets@.len(),
            first_start_at_or_after(offsets@, pos as int, t as int) == first_start_at_or_after(
                offsets@,
                pos as int,
                0,
            ),
        decreases offsets@.len() - t,
    {
        if offsets[t].0 >= pos {
            return Some(t);
        }
        t += 1;
    }
    None
}

/// The page that a block starting at token `t` anchors: the page ending at
/// most [`ANCHOR_PAGE_SLACK`] tokens before `t`, if any.
pub open spec fn anchored_page(t: int, page_size: int) -> Option<int> {
    if t % page_size <= ANCHOR_PAGE_SLACK && t >= page_size {
        Some((t - t % page_size) / page_size - 1)
    } else {
        None
    }
}

/// The page anchored by the block whose marker sits at byte `pos`.
pub open spec fn marker_page(offsets: Seq<(usize, usize)>, pos: int, page_size: int) -> Option<int> {
    match first_start_at_or_after(offsets, pos, 0) {
        Some(t) => anchored_page(t, page_size),
        None => None,
    }
}

/// Flags of `num_pages` pages, set where one of the first `upto` anchor
/// messages anchors the page.
pub open spec fn harness_flags(
    offsets: Seq<(usize, usize)>,
    positions: Seq<int>,
    anchors: Seq<usize>,
    page_size: int,
    num_pages: nat,
    upto: int,
) -> Seq<bool> {
    Seq::new(
        num_pages,
        |p: int|
            exists|j: int|
                0 <= j < upto && #[trigger] marker_page(offsets, positions[anchors[j] as int], page_size)
                    == Some(p),
    )
}

/// Page flags from harness-declared blocks located in a ChatML rendering:
/// `None` when the rendering has fewer message markers than there are
/// messages, else the flags of the pages anchored by some harness block
/// (message `k` starting at the `k`-th marker).
pub open spec fn harness_pages_spec(
    messages: Seq<ChatMessage>,
    rendered: Seq<u8>,
    offsets: Seq<(usize, usize)>,
    page_size: int,
    num_pages: nat,
) -> Option<Seq<bool>> {
    let positions = match_positions_from(rendered, chatml_marker(), 0);
    if positions.len() < messages.len() {
        None
    } else {
        let anchors = harness_indices_upto(messages, messages.len() as int);
        Some(harness_flags(offsets, positions, anchors, page_size, num_pages, anchors.len() as int))
    }
}

/// Maps harness-declared message boundaries to page-anchor flags, using the
/// ChatML markers of the rendered text and the tokens' byte spans.
pub fn harness_anchor_pages(
    messages: &[ChatMessage],
    rendered: &str,
    offsets: &[(usize, usize)],
    page_size: usize,
    num_pages: usize,
) -> (r: Option<Vec<bool>>)
    requires
        page_size > 0,
    ensures
        match r {
            Some(f) => harness_pages_spec(
                messages@,
                encode_utf8(rendered@),
                offsets@,
                page_size as int,
                num_pages as nat,
            ) == Some(f@),
            None => harness_pages_spec(
                messages@,
                encode_utf8(rendered@),
                offsets@,
                page_size as int,
                num_pages as nat,
            ) is None,
        },
{
    let marker = chatml_marker_bytes();
    let found = match_positions(rendered.as_bytes(), marker.as_slice());
    let ghost positions = found@.map_values(|p: usize| p as int);
    if found.len() < messages.len() {
        return None;
    }
    let anchors = harness_anchor_indices(messages);
    proof {
        lemma_harness_indices_characterized(messages@, messages@.len() as int);
    }
    let mut flags: Vec<bool> = Vec::new();
    let mut p: usize = 0;
    while p < num_pages
        invariant
            p <= num_pages,
            flags@.len() == p,
            forall|q: int| 0 <= q < p ==> !flags@[q],
        decreases num_pages - p,
    {
        flags.push(false);
        p += 1;
    }
    assert(flags@ =~= harness_flags(offsets@, positions, anchors@, page_size as int, num_pages as nat, 0));
    let mut i: usize = 0;
    while i < anchors.len()
        invariant
            page_size > 0,
            i <= anchors@.len(),
            positions == found@.map_values(|p: usize| p as int),
            found@.len() >= messages@.len(),
            forall|a: int| 0 <= a < anchors@.len() ==> anchors@[a] < messages@.len(),
            flags@ == harness_flags(offsets@, positions, anchors@, page_size as int, num_pages as nat, i as int),
        decreases anchors@.len() - i,
    {
        let idx = anchors[i];
        let pos = found[idx];
        let tok = first_token_at_or_after(offsets, pos);
        let ghost old_flags = flags@;
        let ghost mp = marker_page(offsets@, positions[idx as int], page_size as int);
        assert(positions[idx as int] == pos as int);
        match tok {
            Some(t) => {
                let rem = t % page_size;
                if rem <= ANCHOR_PAGE_SLACK && t >= page_size {
                    assert((t - rem) / (page_size as int) >= 1) by (nonlinear_arith)
                        requires
                            t >= page_size,
                            page_size > 0,
                            rem == t % page_size,
                    ;
                    let page = (t - rem) / page_size - 1;
                    assert(mp == Some(page as int));
                    if page < num_pages {
                        flags.set(page, true);
                    }
                } else {
                    assert(mp is None);
                }
            },
            None => {
                assert(mp is None);
            },
        }
        proof {
            let next = harness_flags(offsets@, positions, anchors@, page_size as int, num_pages as nat, i + 1);
            assert forall|q: int| 0 <= q < num_pages implies flags@[q] == next[q] by {
                if mp == Some(q) {
                    assert(marker_page(offsets@, positions[anchors@[i as int] as int], page_size as int) == Some(q));
                } else {
                    if old_flags[q] {
                        let j = choose|j: int|
                            0 <= j < i && #[trigger] marker_page(offsets@, positions[anchors@[j] as int], page_size as int)
                                == Some(q);
                        assert(0 <= j < i + 1);
                    }
                    if next[q] {
                        let j = choose|j: int|
                            0 <= j < i + 1 && #[trigger] marker_page(offsets@, positions[anchors@[j] as int], page_size as int)
                                == Some(q);
                        assert(j != i);
                    }
                }
            }
            assert(flags@ =~= next);
        }
        i += 1;
    }
    Some(flags)
}


/// `tokenizers::Tokenizer`, a loaded tokenizer. Proofs see nothing inside it.
#[verifier::external_type_specification]
#[verifier::external_body]
pub struct ExTokenizer(Tokenizer);

/// Whether `tokenizers::Tokenizer::from_bytes` accepts the bytes: a serde
/// parse of a serialized tokenizer, a function of the bytes alone.
pub uninterp spec fn tokenizer_parses(bytes: Seq<u8>) -> bool;

/// The vocabulary, added tokens included, of the tokenizer that the bytes
/// serialize, as `Tokenizer::get_vocab(true)` gives it: token to id.
pub uninterp spec fn tokenizer_vocab_map(bytes: Seq<u8>) -> Map<Seq<char>, u32>;

/// The (token, id) pairs of a vocabulary.
pub open spec fn vocab_pairs(m: Map<Seq<char>, u32>) -> Set<(Seq<char>, u32)> {
    Set::new(|p: (Seq<char>, u32)| m.contains_key(p.0) && m[p.0] == p.1)
}

/// `tokenizers::Tokenizer::from_bytes` then `Tokenizer::get_vocab(true)`:
/// parses a serialized tokenizer and lists its vocabulary as (token, id)
/// pairs, in the map's iteration order, which is left unsaid. Success is
/// named [`tokenizer_parses`], the vocabulary [`tokenizer_vocab_map`]; the
/// error is rendered as text.
#[verifier::external_body]
fn tokenizer_load(bytes: &[u8]) -> (r: Result<(Tokenizer, Vec<(String, u32)>), String>)
    ensures
        r is Ok <==> tokenizer_parses(bytes@),
        r matches Ok(loaded) ==> loaded.1@.map_values(|p: (String, u32)| (p.0@, p.1)).to_set()
            == vocab_pairs(tokenizer_vocab_map(bytes@)),
{
    let t = Tokenizer::from_bytes(bytes).map_err(|e| e.to_string())?;
    let vocab = t.get_vocab(true).into_iter().collect();
    Ok((t, vocab))
}

/// `tokenizers::Tokenizer::encode` with special tokens added: the token ids
/// and their byte spans, or the error as text. Which ids come back is not
/// stated: they depend on the loaded tokenizer, which proofs cannot see, and
/// on a random draw when its BPE model sets a dropout.
#[verifier::external_body]
fn tokenizer_encode(t: &Tokenizer, text: &str) -> (r: Result<(Vec<u32>, Vec<(usize, usize)>), String>) {
    t.encode(text, true).map(|e| (e.get_ids().to_vec(), e.get_offsets().to_vec())).map_err(|e| e.to_string())
}

/// The Unicode lowercase mapping of a text, as `str::to_lowercase`
/// computes it.
pub uninterp spec fn lowercase_spec(s: Seq<char>) -> Seq<char>;

/// `str::to_lowercase`; its result is named [`lowercase_spec`].
#[verifier::external_body]
fn to_lowercase(s: &str) -> (r: String)
    ensures
        r@ == lowercase_spec(s@),
{
    s.to_lowercase()
}

/// A message as plain values: role, content, whether it carries tool calls.
pub open spec fn message_views(msgs: Seq<ChatMessage>) -> Seq<(Seq<char>, Seq<char>, bool)> {
    msgs.map_values(|m: ChatMessage| (m.role@, m.content@, m.has_tool_calls))
}

/// An optional text as plain values.
pub open spec fn opt_text(t: Option<&str>) -> Option<Seq<char>> {
    match t {
        Some(s) => Some(s@),
        None => None,
    }
}

/// A textual result as plain values.
pub open spec fn text_result(r: Result<String, String>) -> Result<Seq<char>, Seq<char>> {
    match r {
        Ok(s) => Ok(s@),
        Err(e) => Err(e@),
    }
}

/// What a Jinja chat template renders for the given messages, tool schema
/// (JSON text) and generation-prompt flag, or the error's text, as
/// `minijinja` computes it.
pub uninterp spec fn jinja_render(
    template: Seq<char>,
    messages: Seq<(Seq<char>, Seq<char>, bool)>,
    tools: Option<Seq<char>>,
    add_generation_prompt: bool,
) -> Result<Seq<char>, Seq<char>>;

/// `minijinja::Environment::template_from_named_str` and `Template::render`:
/// compiles `template` and renders it with `messages` (maps of `role`,
/// `content`, `has_tool_calls`), `add_generation_prompt` and `tools` (the
/// parsed schema, or undefined when there is none; none when the text is not
/// JSON) in the context. Its result is named [`jinja_render`].
#[verifier::external_body]
fn render_template(
    template: &str,
    messages: &[ChatMessage],
    tools_json: Option<&str>,
    add_generation_prompt: bool,
) -> (r: Result<String, String>)
    ensures
        text_result(r) == jinja_render(template@, message_views(messages@), opt_text(tools_json), add_generation_prompt),
{
    let env = minijinja::Environment::new();
    let tmpl = env.template_from_named_str("chat_template", template).map_err(|e| e.to_string())?;
    let tools = tools_json.map_or(Value::UNDEFINED, |t| Value::from_serialize(serde_json::from_str::<SerdeJson>(t).ok()));
    tmpl.render(Value::from_iter([
        ("messages", Value::from_iter(messages.iter().map(|m| Value::from_iter([
            ("role", Value::from(m.role.as_str())),
            ("content", Value::from(m.content.as_str())),
            ("has_tool_calls", Value::from(m.has_tool_calls)),
        ])))),
        ("add_generation_prompt", Value::from(add_generation_prompt)),
        ("tools", tools),
    ])).map_err(|e| e.to_string())
}

/// The structural marker patterns whose tokens anchor pages: turn ends,
/// thinking ends, tool markers.
pub open spec fn anchor_patterns() -> Seq<Seq<char>> {
    seq!["<|im_end|>"@, "</think>"@, "<|eot"@, "eot_id"@, "<tool_"@, "</tool"@]
}

fn anchor_pattern(k: usize) -> (r: &'static str)
    requires
        k < 6,
    ensures
        r@ == anchor_patterns()[k as int],
{
    match k {
        0 => "<|im_end|>",
        1 => "</think>",
        2 => "<|eot",
        3 => "eot_id",
        4 => "<tool_",
        _ => "</tool",
    }
}

/// `needle` occurs somewhere in `hay`.
pub open spec fn contains_bytes(hay: Seq<u8>, needle: Seq<u8>) -> bool {
    exists|i: int| occurs_at(hay, needle, i)
}

fn contains_bytes_exec(hay: &[u8], needle: &[u8]) -> (r: bool)
    ensures
        r == contains_bytes(hay@, needle@),
{
    if needle.len() > hay.len() {
        return false;
    }
    let last = hay.len() - needle.len();
    let mut i: usize = 0;
    loop
        invariant
            last == hay@.len() - needle@.len(),
            needle.len() <= hay.len(),
            i <= last,
            forall|k: int| 0 <= k < i ==> !occurs_at(hay@, needle@, k),
        decreases last - i,
    {
        if occurs_at_exec(hay, needle, i) {
            return true;
        }
        if i == last {
            return false;
        }
        i += 1;
    }
}

/// A vocabulary token is structural when its lowercase UTF-8 bytes contain
/// those of some lowercased anchor pattern.
pub open spec fn is_anchor_token(token: Seq<char>) -> bool {
    exists|k: int|
        0 <= k < anchor_patterns().len() && contains_bytes(
            encode_utf8(lowercase_spec(token)),
            #[trigger] encode_utf8(lowercase_spec(anchor_patterns()[k])),
        )
}

fn lowered_patterns() -> (r: Vec<String>)
    ensures
        r@.len() == anchor_patterns().len(),
        forall|k: int| 0 <= k < r@.len() ==> #[trigger] r@[k]@ == lowercase_spec(anchor_patterns()[k]),
{
    let mut out: Vec<String> = Vec::new();
    let mut k: usize = 0;
    while k < 6
        invariant
            k <= 6,
            out@.len() == k,
            forall|j: int| 0 <= j < k ==> #[trigger] out@[j]@ == lowercase_spec(anchor_patterns()[j]),
        decreases 6 - k,
    {
        out.push(to_lowercase(anchor_pattern(k)));
        k += 1;
    }
    out
}

fn token_is_anchor(token: &str, lowered: &Vec<String>) -> (r: bool)
    requires
        lowered@.len() == anchor_patterns().len(),
        forall|k: int| 0 <= k < lowered@.len() ==> #[trigger] lowered@[k]@ == lowercase_spec(anchor_patterns()[k]),
    ensures
        r == is_anchor_token(token@),
{
    let lower = to_lowercase(token);
    let hay = lower.as_str().as_bytes();
    let mut k: usize = 0;
    while k < lowered.len()
        invariant
            lowered@.len() == anchor_patterns().len(),
            forall|j: int| 0 <= j < lowered@.len() ==> #[trigger] lowered@[j]@ == lowercase_spec(anchor_patterns()[j]),
            hay@ == encode_utf8(lowercase_spec(token@)),
            k <= lowered@.len(),
            forall|j: int|
                0 <= j < k ==> !contains_bytes(hay@, #[trigger] encode_utf8(lowercase_spec(anchor_patterns()[j]))),
        decreases lowered@.len() - k,
    {
        let pat = lowered[k].as_str().as_bytes();
        assert(lowered@[k as int]@ == lowercase_spec(anchor_patterns()[k as int]));
        if contains_bytes_exec(hay, pat) {
            return true;
        }
        k += 1;
    }
    false
}

/// The ids of the structural tokens of a vocabulary.
pub open spec fn vocab_anchor_ids(vocab: Seq<(String, u32)>) -> Set<u32> {
    Set::new(|id: u32| exists|i: int| 0 <= i < vocab.len() && #[trigger] vocab[i].1 == id && is_anchor_token(vocab[i].0@))
}

/// The ids of the structural tokens of a vocabulary given as a map.
pub open spec fn map_anchor_ids(m: Map<Seq<char>, u32>) -> Set<u32> {
    Set::new(|id: u32| exists|tok: Seq<char>| #[trigger] m.contains_key(tok) && m[tok] == id && is_anchor_token(tok))
}

/// A list of a vocabulary's pairs, in any order, has the same structural ids
/// as the vocabulary.
proof fn lemma_vocab_anchor_ids_of_map(v: Seq<(String, u32)>, m: Map<Seq<char>, u32>)
    requires
        v.map_values(|p: (String, u32)| (p.0@, p.1)).to_set() == vocab_pairs(m),
    ensures
        vocab_anchor_ids(v) == map_anchor_ids(m),
{
    let pv = v.map_values(|p: (String, u32)| (p.0@, p.1));
    assert forall|id: u32| vocab_anchor_ids(v).contains(id) <==> map_anchor_ids(m).contains(id) by {
        if vocab_anchor_ids(v).contains(id) {
            let i = choose|i: int| 0 <= i < v.len() && #[trigger] v[i].1 == id && is_anchor_token(v[i].0@);
            assert(pv[i] == (v[i].0@, id));
            assert(pv.to_set().contains(pv[i]));
            assert(m.contains_key(v[i].0@));
        }
        if map_anchor_ids(m).contains(id) {
            let tok = choose|tok: Seq<char>| #[trigger] m.contains_key(tok) && m[tok] == id && is_anchor_token(tok);
            assert(vocab_pairs(m).contains((tok, id)));
            let i = choose|i: int| 0 <= i < pv.len() && pv[i] == (tok, id);
            assert(v[i].1 == id && v[i].0@ == tok);
        }
    }
    assert(vocab_anchor_ids(v) =~= map_anchor_ids(m));
}

/// The ids of the vocabulary tokens that contain a structural marker.
pub fn anchor_token_ids_from_vocab(vocab: &[(String, u32)]) -> (r: HashSet<u32>)
    ensures
        r@ == vocab_anchor_ids(vocab@),
{
    let lowered = lowered_patterns();
    let mut out: HashSet<u32> = HashSet::new();
    let mut i: usize = 0;
    while i < vocab.len()
        invariant
            i <= vocab@.len(),
            lowered@.len() == anchor_patterns().len(),
            forall|k: int| 0 <= k < lowered@.len() ==> #[trigger] lowered@[k]@ == lowercase_spec(anchor_patterns()[k]),
            out@ == Set::new(|id: u32| exists|j: int| 0 <= j < i && #[trigger] vocab@[j].1 == id && is_anchor_token(vocab@[j].0@)),
        decreases vocab@.len() - i,
    {
        let ghost before = out@;
        let entry = &vocab[i];
        if token_is_anchor(entry.0.as_str(), &lowered) {
            out.insert(entry.1);
        }
        proof {
            let next = Set::new(|id: u32| exists|j: int| 0 <= j < i + 1 && #[trigger] vocab@[j].1 == id && is_anchor_token(vocab@[j].0@));
            assert forall|id: u32| out@.contains(id) <==> next.contains(id) by {
                if before.contains(id) {
                    let j = choose|j: int| 0 <= j < i && #[trigger] vocab@[j].1 == id && is_anchor_token(vocab@[j].0@);
                    assert(0 <= j < i + 1 && vocab@[j].1 == id);
                }
                if next.contains(id) {
                    let j = choose|j: int| 0 <= j < i + 1 && #[trigger] vocab@[j].1 == id && is_anchor_token(vocab@[j].0@);
                    if j < i {
                        assert(before.contains(id));
                    }
                }
            }
            assert(out@ =~= next);
        }
        i += 1;
    }
    assert(vocab@.len() == i);
    out
}


/// Per-page anchor flags of a token stream: page `i` is anchored when a
/// structural token is its last token or the token just after it.
pub open spec fn anchor_flags(ids: Seq<u32>, page_size: int, anchors: Set<u32>) -> Seq<bool> {
    Seq::new(
        (ids.len() as int / page_size) as nat,
        |i: int|
            anchors.contains(ids[(i + 1) * page_size - 1]) || ((i + 1) * page_size < ids.len()
                && anchors.contains(ids[(i + 1) * page_size])),
    )
}

/// Anchor flags of a chat: the structural-token flags, joined with the
/// harness-declared flags where the rendering is a ChatML stream.
pub open spec fn chat_anchor_flags(
    messages: Seq<ChatMessage>,
    encoded: ChatEncodeOutput,
    page_size: int,
    anchors: Set<u32>,
) -> Seq<bool> {
    let base = anchor_flags(encoded.token_ids@, page_size, anchors);
    match harness_pages_spec(messages, encode_utf8(encoded.rendered@), encoded.offsets@, page_size, base.len()) {
        Some(h) => Seq::new(base.len(), |i: int| base[i] || h[i]),
        None => base,
    }
}

/// The text the fallback rendering gives the first `n` messages: one
/// `role: content` line each.
pub open spec fn fallback_lines(msgs: Seq<ChatMessage>, n: int) -> Seq<char>
    decreases n,
{
    if n <= 0 {
        Seq::empty()
    } else {
        fallback_lines(msgs, n - 1) + msgs[n - 1].role@ + ": "@ + msgs[n - 1].content@ + "\n"@
    }
}

/// The rendering used when there is no chat template.
pub open spec fn fallback_render(msgs: Seq<ChatMessage>, add_generation_prompt: bool) -> Seq<char> {
    fallback_lines(msgs, msgs.len() as int) + if add_generation_prompt {
        "assistant:\n"@
    } else {
        Seq::empty()
    }
}

/// What rendering a chat gives: the template's output or error when there is
/// a template, else the fallback rendering.
pub open spec fn render_result(
    template: Option<Seq<char>>,
    msgs: Seq<ChatMessage>,
    tools: Option<Seq<char>>,
    add_generation_prompt: bool,
) -> Result<Seq<char>, Seq<char>> {
    match template {
        Some(t) => jinja_render(t, message_views(msgs), tools, add_generation_prompt),
        None => Ok(fallback_render(msgs, add_generation_prompt)),
    }
}

proof fn lemma_page_end_fits(len: int, page_size: int, i: int)
    requires
        page_size > 0,
        len >= 0,
        0 <= i < len / page_size,
    ensures
        page_size <= (i + 1) * page_size <= len,
{
    assert((i + 1) * page_size <= len) by (nonlinear_arith)
        requires
            page_size > 0,
            0 <= i,
            i < len / page_size,
            len >= 0,
    ;
    assert(page_size <= (i + 1) * page_size) by (nonlinear_arith)
        requires
            page_size > 0,
            0 <= i,
    ;
}

/// A tokenizer with its chat template and the ids of its structural tokens.
pub struct TokenizerEngine {
    tokenizer: Tokenizer,
    chat_template: Option<String>,
    anchor_token_ids: HashSet<u32>,
}

impl TokenizerEngine {
    /// The ids of the structural tokens.
    pub closed spec fn anchor_ids(&self) -> Set<u32> {
        self.anchor_token_ids@
    }

    /// The chat template, if any.
    pub closed spec fn template(&self) -> Option<Seq<char>> {
        match self.chat_template {
            Some(t) => Some(t@),
            None => None,
        }
    }

    /// Loads a serialized tokenizer (the contents of a `tokenizer.json`) and
    /// derives its structural token ids from its vocabulary.
    pub fn from_bytes(bytes: &[u8], chat_template: Option<String>) -> (r: Result<Self, TokenizerError>)
        ensures
            r is Ok <==> tokenizer_parses(bytes@),
            match r {
                Ok(e) => e.template() == (match chat_template {
                    Some(t) => Some(t@),
                    None => None::<Seq<char>>,
                }) && e.anchor_ids() == map_anchor_ids(tokenizer_vocab_map(bytes@)),
                Err(err) => err is LoadError,
            },
    {
        match tokenizer_load(bytes) {
            Ok(loaded) => {
                let (tokenizer, vocab) = loaded;
                let anchor_token_ids = anchor_token_ids_from_vocab(vocab.as_slice());
                proof {
                    lemma_vocab_anchor_ids_of_map(vocab@, tokenizer_vocab_map(bytes@));
                }
                let e = TokenizerEngine { tokenizer, chat_template, anchor_token_ids };
                Ok(e)
            },
            Err(msg) => Err(TokenizerError::LoadError(msg)),
        }
    }

    /// Tokenizes raw text.
    pub fn encode_text(&self, text: &str) -> (r: Result<Vec<u32>, TokenizerError>)
        ensures
            r matches Err(e) ==> e is EncodeError,
    {
        match tokenizer_encode(&self.tokenizer, text) {
            Ok(enc) => Ok(enc.0),
            Err(msg) => Err(TokenizerError::EncodeError(msg)),
        }
    }

    /// Per-page anchor flags of a token stream: see [`anchor_flags`].
    pub fn page_is_anchor(&self, token_ids: &[u32], page_size: usize) -> (r: Vec<bool>)
        requires
            page_size > 0,
        ensures
            r@ == anchor_flags(token_ids@, page_size as int, self.anchor_ids()),
    {
        let n = token_ids.len() / page_size;
        let mut flags: Vec<bool> = Vec::new();
        let mut i: usize = 0;
        while i < n
            invariant
                page_size > 0,
                n == token_ids@.len() as int / (page_size as int),
                i <= n,
                flags@ =~= anchor_flags(token_ids@, page_size as int, self.anchor_ids()).take(i as int),
            decreases n - i,
        {
            proof {
                lemma_page_end_fits(token_ids.len() as int, page_size as int, i as int);
            }
            let end = (i + 1) * page_size;
            let last_here = token_ids[end - 1];
            let mut anchored = self.anchor_token_ids.contains(&last_here);
            if !anchored && end < token_ids.len() {
                anchored = self.anchor_token_ids.contains(&token_ids[end]);
            }
            flags.push(anchored);
            i += 1;
        }
        flags
    }

    /// Anchor flags combining the structural tokens with the harness-declared
    /// message boundaries: see [`chat_anchor_flags`].
    pub fn page_is_anchor_chat(
        &self,
        messages: &[ChatMessage],
        encoded: &ChatEncodeOutput,
        page_size: usize,
    ) -> (r: Vec<bool>)
        requires
            page_size > 0,
        ensures
            r@ == chat_anchor_flags(messages@, *encoded, page_size as int, self.anchor_ids()),
    {
        let mut flags = self.page_is_anchor(encoded.token_ids.as_slice(), page_size);
        let ghost base = flags@;
        let harness = harness_anchor_pages(
            messages,
            encoded.rendered.as_str(),
            encoded.offsets.as_slice(),
            page_size,
            flags.len(),
        );
        match harness {
            Some(h) => {
                let mut i: usize = 0;
                while i < flags.len()
                    invariant
                        h@.len() == base.len(),
                        flags@.len() == base.len(),
                        i <= flags@.len(),
                        forall|k: int| 0 <= k < i ==> flags@[k] == (base[k] || h@[k]),
                        forall|k: int| i <= k < flags@.len() ==> flags@[k] == base[k],
                    decreases flags@.len() - i,
                {
                    let v = flags[i] || h[i];
                    flags.set(i, v);
                    i += 1;
                }
                assert(flags@ =~= Seq::new(base.len(), |k: int| base[k] || h@[k]));
            },
            None => {},
        }
        flags
    }

    /// Number of structural token ids.
    pub fn anchor_vocab_size(&self) -> (r: usize)
        ensures
            r == self.anchor_ids().len(),
    {
        self.anchor_token_ids.len()
    }

    fn render_chat(&self, messages: &[ChatMessage], tools_json: Option<&str>, add_generation_prompt: bool) -> (r: Result<
        String,
        TokenizerError,
    >)
        ensures
            match r {
                Ok(s) => render_result(self.template(), messages@, opt_text(tools_json), add_generation_prompt)
                    == Ok::<Seq<char>, Seq<char>>(s@),
                Err(e) => e matches TokenizerError::TemplateError(m) && render_result(
                    self.template(),
                    messages@,
                    opt_text(tools_json),
                    add_generation_prompt,
                ) == Err::<Seq<char>, Seq<char>>(m@),
            },
    {
        match &self.chat_template {
            Some(template) => match render_template(template.as_str(), messages, tools_json, add_generation_prompt) {
                Ok(s) => Ok(s),
                Err(m) => Err(TokenizerError::TemplateError(m)),
            },
            None => {
                let mut combined = String::new();
                let mut i: usize = 0;
                while i < messages.len()
                    invariant
                        i <= messages@.len(),
                        combined@ == fallback_lines(messages@, i as int),
                    decreases messages@.len() - i,
                {
                    combined.append(messages[i].role.as_str());
                    combined.append(": ");
                    combined.append(messages[i].content.as_str());
                    combined.append("\n");
                    i += 1;
                }
                if add_generation_prompt {
                    combined.append("assistant:\n");
                } else {
                    assert(combined@ =~= combined@ + Seq::<char>::empty());
                }
                Ok(combined)
            },
        }
    }

    /// Renders the chat (template, or fallback lines) and tokenizes it,
    /// keeping the rendered text and the tokens' byte spans.
    pub fn encode_chat_full(
        &self,
        messages: &[ChatMessage],
        tools_json: Option<&str>,
        add_generation_prompt: bool,
    ) -> (r: Result<ChatEncodeOutput, TokenizerError>)
        ensures
            match render_result(self.template(), messages@, opt_text(tools_json), add_generation_prompt) {
                Ok(text) => match r {
                    Ok(out) => out.rendered@ == text,
                    Err(e) => e is EncodeError,
                },
                Err(m) => r matches Err(TokenizerError::TemplateError(msg)) && msg@ == m,
            },
    {
        let rendered = self.render_chat(messages, tools_json, add_generation_prompt)?;
        match tokenizer_encode(&self.tokenizer, rendered.as_str()) {
            Ok(enc) => Ok(ChatEncodeOutput { token_ids: enc.0, offsets: enc.1, rendered }),
            Err(msg) => Err(TokenizerError::EncodeError(msg)),
        }
    }

    /// Renders and tokenizes a chat with an optional tool schema (JSON text),
    /// which engines include in the rendering.
    pub fn encode_chat_with_tools(
        &self,
        messages: &[ChatMessage],
        tools_json: Option<&str>,
        add_generation_prompt: bool,
    ) -> (r: Result<Vec<u32>, TokenizerError>)
        ensures
            match render_result(self.template(), messages@, opt_text(tools_json), add_generation_prompt) {
                Ok(text) => r matches Err(e) ==> e is EncodeError,
                Err(m) => r matches Err(TokenizerError::TemplateError(msg)) && msg@ == m,
            },
    {
        let out = self.encode_chat_full(messages, tools_json, add_generation_prompt)?;
        Ok(out.token_ids)
    }

    /// Renders and tokenizes a chat without a tool schema.
    pub fn encode_chat(&self, messages: &[ChatMessage], add_generation_prompt: bool) -> (r: Result<
        Vec<u32>,
        TokenizerError,
    >)
        ensures
            match render_result(self.template(), messages@, None, add_generation_prompt) {
                Ok(text) => r matches Err(e) ==> e is EncodeError,
                Err(m) => r matches Err(TokenizerError::TemplateError(msg)) && msg@ == m,
            },
    {
        self.encode_chat_with_tools(messages, None, add_generation_prompt)
    }
}

/// Tokens that encoding a chat with a tool schema can give come from a
/// rendering of that chat with that schema: a successful encoding means the
/// template rendered the messages and tools.
pub proof fn lemma_chat_encoding_renders(
    e: &TokenizerEngine,
    messages: &[ChatMessage],
    tools_json: Option<&str>,
    add_generation_prompt: bool,
    t: Vec<u32>,
)
    requires
        call_ensures(
            TokenizerEngine::encode_chat_with_tools,
            (e, messages, tools_json, add_generation_prompt),
            Ok::<Vec<u32>, TokenizerError>(t),
        ),
    ensures
        render_result(e.template(), messages@, opt_text(tools_json), add_generation_prompt) is Ok,
{
}

/// Harness-declared boundaries only add anchors: every page anchored by a
/// structural token stays anchored in a chat, and the flags cover the same
/// pages.
pub proof fn lemma_chat_flags_extend_token_flags(
    messages: Seq<ChatMessage>,
    encoded: ChatEncodeOutput,
    page_size: int,
    anchors: Set<u32>,
    i: int,
)
    requires
        0 <= i < anchor_flags(encoded.token_ids@, page_size, anchors).len(),
        anchor_flags(encoded.token_ids@, page_size, anchors)[i],
    ensures
        chat_anchor_flags(messages, encoded, page_size, anchors).len() == anchor_flags(
            encoded.token_ids@,
            page_size,
            anchors,
        ).len(),
        chat_anchor_flags(messages, encoded, page_size, anchors)[i],
{
}

/// The `chat_template` string of a `tokenizer_config.json` document.
pub open spec fn config_chat_template(raw: Seq<u8>) -> Option<Seq<char>> {
    match json_decode(raw) {
        Some(JsonValue::Object(es)) => match obj_get(es@, "chat_template"@) {
            Some(JsonValue::Str(t)) => Some(t@),
            _ => None,
        },
        _ => None,
    }
}

/// The chat template to hash with: the configured one, else the
/// `chat_template` string of the tokenizer's `tokenizer_config.json`
/// (given as text), so that prompts render as the engine renders them.
pub fn chat_template_from_config(raw: &str, configured: Option<String>) -> (r: Option<String>)
    ensures
        configured is Some ==> r == configured,
        configured is None ==> match r {
            Some(t) => config_chat_template(encode_utf8(raw@)) == Some(t@),
            None => config_chat_template(encode_utf8(raw@)) is None,
        },
{
    if configured.is_some() {
        return configured;
    }
    match json_parse(raw.as_bytes()) {
        Some(JsonValue::Object(es)) => match find_key(&es, "chat_template") {
            Some(i) => {
                proof {
                    lemma_key_index_range(es@, "chat_template"@, 0);
                }
                match &es[i].1 {
                    JsonValue::Str(t) => Some(t.clone()),
                    _ => None,
                }
            },
            None => None,
        },
        _ => None,
    }
}

} // verus!
