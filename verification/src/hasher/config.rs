//! The immutable description of how block hashes are produced, and its
//! fingerprint.

use crate::bytes::{le_bytes_u32, le_bytes_u64, push_all, push_u32_le, push_u64_le};
use crate::hasher::digest::{hex_encode, hex_lower, lemma_hex_lower_injective, lemma_hex_lower_len, sha256, sha256_spec};
use vstd::prelude::*;
use vstd::seq_lib::lemma_concat_associative;
use vstd::utf8::encode_utf8;

verus! {

/// Everything that determines the hash of a block: engine, model, tokenizer,
/// chat template, page size and hashing scheme.
#[derive(Debug, Clone)]
pub struct HashConfig {
    pub schema_version: u32,
    pub engine: String,
    pub engine_version: String,
    pub model_id: String,
    pub tokenizer_digest: String,
    pub chat_template_digest: String,
    pub page_size: usize,
    pub hash_algorithm: String,
}

/// A text field in canonical form: its UTF-8 length as eight little-endian
/// bytes, then its UTF-8 bytes.
#[verifier::opaque]
pub open spec fn text_field(s: Seq<char>) -> Seq<u8> {
    le_bytes_u64(encode_utf8(s).len() as u64) + encode_utf8(s)
}

/// The canonical serialization that the fingerprint digests: the schema
/// version as four little-endian bytes, each text field length-prefixed (see
/// [`text_field`]), with the page size as eight little-endian bytes before
/// the hash algorithm's name.
pub open spec fn fingerprint_preimage(c: HashConfig) -> Seq<u8> {
    le_bytes_u32(c.schema_version) + (text_field(c.engine@) + (text_field(c.engine_version@) + (
    text_field(c.model_id@) + (text_field(c.tokenizer_digest@) + (text_field(c.chat_template_digest@) + (
    le_bytes_u64(c.page_size as u64) + text_field(c.hash_algorithm@)))))))
}

proof fn lemma_split_eq(a1: Seq<u8>, r1: Seq<u8>, a2: Seq<u8>, r2: Seq<u8>)
    requires
        a1 + r1 == a2 + r2,
        a1.len() == a2.len(),
    ensures
        a1 == a2,
        r1 == r2,
{
    assert(a1 =~= (a1 + r1).take(a1.len() as int));
    assert(a2 =~= (a2 + r2).take(a2.len() as int));
    assert(r1 =~= (a1 + r1).skip(a1.len() as int));
    assert(r2 =~= (a2 + r2).skip(a2.len() as int));
}

proof fn lemma_le_u32_injective(x: u32, y: u32)
    requires
        le_bytes_u32(x) == le_bytes_u32(y),
    ensures
        x == y,
{
    assert(le_bytes_u32(x)[0] == le_bytes_u32(y)[0]);
    assert(le_bytes_u32(x)[1] == le_bytes_u32(y)[1]);
    assert(le_bytes_u32(x)[2] == le_bytes_u32(y)[2]);
    assert(le_bytes_u32(x)[3] == le_bytes_u32(y)[3]);
    assert(x == y) by (bit_vector)
        requires
            (x % 256u32) == (y % 256u32),
            ((x / 256u32) % 256u32) == ((y / 256u32) % 256u32),
            ((x / 0x1_0000u32) % 256u32) == ((y / 0x1_0000u32) % 256u32),
            ((x / 0x100_0000u32) % 256u32) == ((y / 0x100_0000u32) % 256u32),
    ;
}

proof fn lemma_le_u64_injective(x: u64, y: u64)
    requires
        le_bytes_u64(x) == le_bytes_u64(y),
    ensures
        x == y,
{
    assert(le_bytes_u64(x)[0] == le_bytes_u64(y)[0]);
    assert(le_bytes_u64(x)[1] == le_bytes_u64(y)[1]);
    assert(le_bytes_u64(x)[2] == le_bytes_u64(y)[2]);
    assert(le_bytes_u64(x)[3] == le_bytes_u64(y)[3]);
    assert(le_bytes_u64(x)[4] == le_bytes_u64(y)[4]);
    assert(le_bytes_u64(x)[5] == le_bytes_u64(y)[5]);
    assert(le_bytes_u64(x)[6] == le_bytes_u64(y)[6]);
    assert(le_bytes_u64(x)[7] == le_bytes_u64(y)[7]);
    assert(x == y) by (bit_vector)
        requires
            (x % 256u64) == (y % 256u64),
            ((x / 0x100u64) % 256u64) == ((y / 0x100u64) % 256u64),
            ((x / 0x1_0000u64) % 256u64) == ((y / 0x1_0000u64) % 256u64),
            ((x / 0x100_0000u64) % 256u64) == ((y / 0x100_0000u64) % 256u64),
            ((x / 0x1_0000_0000u64) % 256u64) == ((y / 0x1_0000_0000u64) % 256u64),
            ((x / 0x100_0000_0000u64) % 256u64) == ((y / 0x100_0000_0000u64) % 256u64),
            ((x / 0x1_0000_0000_0000u64) % 256u64) == ((y / 0x1_0000_0000_0000u64) % 256u64),
            ((x / 0x100_0000_0000_0000u64) % 256u64) == ((y / 0x100_0000_0000_0000u64) % 256u64),
    ;
}

/// Peels one length-prefixed text field off two equal byte strings.
proof fn lemma_field_split(s1: Seq<char>, r1: Seq<u8>, s2: Seq<char>, r2: Seq<u8>)
    requires
        text_field(s1) + r1 == text_field(s2) + r2,
        encode_utf8(s1).len() <= u64::MAX,
        encode_utf8(s2).len() <= u64::MAX,
    ensures
        s1 == s2,
        r1 == r2,
{
    reveal(text_field);
    let b1 = encode_utf8(s1);
    let b2 = encode_utf8(s2);
    assert(text_field(s1) + r1 =~= le_bytes_u64(b1.len() as u64) + (b1 + r1));
    assert(text_field(s2) + r2 =~= le_bytes_u64(b2.len() as u64) + (b2 + r2));
    lemma_split_eq(le_bytes_u64(b1.len() as u64), b1 + r1, le_bytes_u64(b2.len() as u64), b2 + r2);
    lemma_le_u64_injective(b1.len() as u64, b2.len() as u64);
    lemma_split_eq(b1, r1, b2, r2);
    vstd::utf8::encode_utf8_decode_utf8(s1);
    vstd::utf8::encode_utf8_decode_utf8(s2);
}

/// The serialization is canonical: two configurations with the same
/// preimage agree on every field, so configurations that differ in any field
/// digest different bytes.
pub proof fn lemma_fingerprint_preimage_injective(c1: HashConfig, c2: HashConfig)
    requires
        fingerprint_preimage(c1) == fingerprint_preimage(c2),
        encode_utf8(c1.engine@).len() <= u64::MAX,
        encode_utf8(c1.engine_version@).len() <= u64::MAX,
        encode_utf8(c1.model_id@).len() <= u64::MAX,
        encode_utf8(c1.tokenizer_digest@).len() <= u64::MAX,
        encode_utf8(c1.chat_template_digest@).len() <= u64::MAX,
        encode_utf8(c1.hash_algorithm@).len() <= u64::MAX,
        encode_utf8(c2.engine@).len() <= u64::MAX,
        encode_utf8(c2.engine_version@).len() <= u64::MAX,
        encode_utf8(c2.model_id@).len() <= u64::MAX,
        encode_utf8(c2.tokenizer_digest@).len() <= u64::MAX,
        encode_utf8(c2.chat_template_digest@).len() <= u64::MAX,
        encode_utf8(c2.hash_algorithm@).len() <= u64::MAX,
    ensures
        c1.schema_version == c2.schema_version,
        c1.engine@ == c2.engine@,
        c1.engine_version@ == c2.engine_version@,
        c1.model_id@ == c2.model_id@,
        c1.tokenizer_digest@ == c2.tokenizer_digest@,
        c1.chat_template_digest@ == c2.chat_template_digest@,
        c1.page_size == c2.page_size,
        c1.hash_algorithm@ == c2.hash_algorithm@,
{
    let t1 = text_field(c1.engine@) + (text_field(c1.engine_version@) + (text_field(c1.model_id@) + (
    text_field(c1.tokenizer_digest@) + (text_field(c1.chat_template_digest@) + (le_bytes_u64(
        c1.page_size as u64,
    ) + text_field(c1.hash_algorithm@))))));
    let t2 = text_field(c2.engine@) + (text_field(c2.engine_version@) + (text_field(c2.model_id@) + (
    text_field(c2.tokenizer_digest@) + (text_field(c2.chat_template_digest@) + (le_bytes_u64(
        c2.page_size as u64,
    ) + text_field(c2.hash_algorithm@))))));
    lemma_split_eq(le_bytes_u32(c1.schema_version), t1, le_bytes_u32(c2.schema_version), t2);
    lemma_le_u32_injective(c1.schema_version, c2.schema_version);
    let u1 = text_field(c1.engine_version@) + (text_field(c1.model_id@) + (text_field(c1.tokenizer_digest@) + (
    text_field(c1.chat_template_digest@) + (le_bytes_u64(c1.page_size as u64) + text_field(c1.hash_algorithm@)))));
    let u2 = text_field(c2.engine_version@) + (text_field(c2.model_id@) + (text_field(c2.tokenizer_digest@) + (
    text_field(c2.chat_template_digest@) + (le_bytes_u64(c2.page_size as u64) + text_field(c2.hash_algorithm@)))));
    lemma_field_split(c1.engine@, u1, c2.engine@, u2);
    let v1 = text_field(c1.model_id@) + (text_field(c1.tokenizer_digest@) + (text_field(c1.chat_template_digest@) + (
    le_bytes_u64(c1.page_size as u64) + text_field(c1.hash_algorithm@))));
    let v2 = text_field(c2.model_id@) + (text_field(c2.tokenizer_digest@) + (text_field(c2.chat_template_digest@) + (
    le_bytes_u64(c2.page_size as u64) + text_field(c2.hash_algorithm@))));
    lemma_field_split(c1.engine_version@, v1, c2.engine_version@, v2);
    let w1 = text_field(c1.tokenizer_digest@) + (text_field(c1.chat_template_digest@) + (le_bytes_u64(
        c1.page_size as u64,
    ) + text_field(c1.hash_algorithm@)));
    let w2 = text_field(c2.tokenizer_digest@) + (text_field(c2.chat_template_digest@) + (le_bytes_u64(
        c2.page_size as u64,
    ) + text_field(c2.hash_algorithm@)));
    lemma_field_split(c1.model_id@, w1, c2.model_id@, w2);
    let x1 = text_field(c1.chat_template_digest@) + (le_bytes_u64(c1.page_size as u64) + text_field(
        c1.hash_algorithm@,
    ));
    let x2 = text_field(c2.chat_template_digest@) + (le_bytes_u64(c2.page_size as u64) + text_field(
        c2.hash_algorithm@,
    ));
    lemma_field_split(c1.tokenizer_digest@, x1, c2.tokenizer_digest@, x2);
    let y1 = le_bytes_u64(c1.page_size as u64) + text_field(c1.hash_algorithm@);
    let y2 = le_bytes_u64(c2.page_size as u64) + text_field(c2.hash_algorithm@);
    lemma_field_split(c1.chat_template_digest@, y1, c2.chat_template_digest@, y2);
    lemma_split_eq(le_bytes_u64(c1.page_size as u64), text_field(c1.hash_algorithm@), le_bytes_u64(
        c2.page_size as u64,
    ), text_field(c2.hash_algorithm@));
    lemma_le_u64_injective(c1.page_size as u64, c2.page_size as u64);
    assert(text_field(c1.hash_algorithm@) + Seq::<u8>::empty() =~= text_field(c1.hash_algorithm@));
    assert(text_field(c2.hash_algorithm@) + Seq::<u8>::empty() =~= text_field(c2.hash_algorithm@));
    lemma_field_split(c1.hash_algorithm@, Seq::<u8>::empty(), c2.hash_algorithm@, Seq::<u8>::empty());
}

/// The fields of two configurations differ somewhere.
pub open spec fn configs_differ(c1: HashConfig, c2: HashConfig) -> bool {
    ||| c1.schema_version != c2.schema_version
    ||| c1.engine@ != c2.engine@
    ||| c1.engine_version@ != c2.engine_version@
    ||| c1.model_id@ != c2.model_id@
    ||| c1.tokenizer_digest@ != c2.tokenizer_digest@
    ||| c1.chat_template_digest@ != c2.chat_template_digest@
    ||| c1.page_size != c2.page_size
    ||| c1.hash_algorithm@ != c2.hash_algorithm@
}

/// Configurations that differ in any field have different fingerprints,
/// unless SHA-256 maps their two serializations to the same digest.
pub proof fn lemma_fingerprints_differ(c1: HashConfig, c2: HashConfig)
    requires
        configs_differ(c1, c2),
        fingerprint_preimage(c1) != fingerprint_preimage(c2) ==> sha256_spec(fingerprint_preimage(c1))
            != sha256_spec(fingerprint_preimage(c2)),
        encode_utf8(c1.engine@).len() <= u64::MAX,
        encode_utf8(c1.engine_version@).len() <= u64::MAX,
        encode_utf8(c1.model_id@).len() <= u64::MAX,
        encode_utf8(c1.tokenizer_digest@).len() <= u64::MAX,
        encode_utf8(c1.chat_template_digest@).len() <= u64::MAX,
        encode_utf8(c1.hash_algorithm@).len() <= u64::MAX,
        encode_utf8(c2.engine@).len() <= u64::MAX,
        encode_utf8(c2.engine_version@).len() <= u64::MAX,
        encode_utf8(c2.model_id@).len() <= u64::MAX,
        encode_utf8(c2.tokenizer_digest@).len() <= u64::MAX,
        encode_utf8(c2.chat_template_digest@).len() <= u64::MAX,
        encode_utf8(c2.hash_algorithm@).len() <= u64::MAX,
    ensures
        hex_lower(sha256_spec(fingerprint_preimage(c1))) != hex_lower(sha256_spec(fingerprint_preimage(c2))),
{
    if fingerprint_preimage(c1) == fingerprint_preimage(c2) {
        lemma_fingerprint_preimage_injective(c1, c2);
    }
    if hex_lower(sha256_spec(fingerprint_preimage(c1))) == hex_lower(sha256_spec(fingerprint_preimage(c2))) {
        lemma_hex_lower_injective(sha256_spec(fingerprint_preimage(c1)), sha256_spec(fingerprint_preimage(c2)));
    }
}

proof fn lemma_preimage_assoc(c: HashConfig)
    ensures
        le_bytes_u32(c.schema_version) + text_field(c.engine@) + text_field(c.engine_version@) + text_field(
            c.model_id@,
        ) + text_field(c.tokenizer_digest@) + text_field(c.chat_template_digest@) + le_bytes_u64(
            c.page_size as u64,
        ) + text_field(c.hash_algorithm@) == fingerprint_preimage(c),
{
    let a = le_bytes_u32(c.schema_version);
    let b = text_field(c.engine@);
    let d = text_field(c.engine_version@);
    let e = text_field(c.model_id@);
    let f = text_field(c.tokenizer_digest@);
    let g = text_field(c.chat_template_digest@);
    let h = le_bytes_u64(c.page_size as u64);
    let k = text_field(c.hash_algorithm@);
    lemma_concat_associative(a + b + d + e + f + g, h, k);
    lemma_concat_associative(a + b + d + e + f, g, h + k);
    lemma_concat_associative(a + b + d + e, f, g + (h + k));
    lemma_concat_associative(a + b + d, e, f + (g + (h + k)));
    lemma_concat_associative(a + b, d, e + (f + (g + (h + k))));
    lemma_concat_associative(a, b, d + (e + (f + (g + (h + k)))));
}

fn push_text_field(out: &mut Vec<u8>, s: &str)
    ensures
        final(out)@ == old(out)@ + text_field(s@),
{
    let b = s.as_bytes();
    push_u64_le(out, b.len() as u64);
    push_all(out, b);
    proof {
        reveal(text_field);
        assert(final(out)@ =~= old(out)@ + text_field(s@));
    }
}

impl HashConfig {
    /// A configuration of the current schema version (1).
    pub fn new(
        engine: &str,
        engine_version: &str,
        model_id: &str,
        tokenizer_digest: &str,
        chat_template_digest: &str,
        page_size: usize,
        hash_algorithm: &str,
    ) -> (r: Self)
        ensures
            r.schema_version == 1,
            r.engine@ == engine@,
            r.engine_version@ == engine_version@,
            r.model_id@ == model_id@,
            r.tokenizer_digest@ == tokenizer_digest@,
            r.chat_template_digest@ == chat_template_digest@,
            r.page_size == page_size,
            r.hash_algorithm@ == hash_algorithm@,
    {
        HashConfig {
            schema_version: 1,
            engine: engine.to_owned(),
            engine_version: engine_version.to_owned(),
            model_id: model_id.to_owned(),
            tokenizer_digest: tokenizer_digest.to_owned(),
            chat_template_digest: chat_template_digest.to_owned(),
            page_size,
            hash_algorithm: hash_algorithm.to_owned(),
        }
    }

    /// The lowercase hexadecimal SHA-256 digest of the canonical
    /// serialization [`fingerprint_preimage`].
    pub fn fingerprint(&self) -> (r: String)
        ensures
            r@ == hex_lower(sha256_spec(fingerprint_preimage(*self))),
            r@.len() == 64,
    {
        let mut buf: Vec<u8> = Vec::new();
        push_u32_le(&mut buf, self.schema_version);
        push_text_field(&mut buf, self.engine.as_str());
        push_text_field(&mut buf, self.engine_version.as_str());
        push_text_field(&mut buf, self.model_id.as_str());
        push_text_field(&mut buf, self.tokenizer_digest.as_str());
        push_text_field(&mut buf, self.chat_template_digest.as_str());
        push_u64_le(&mut buf, self.page_size as u64);
        push_text_field(&mut buf, self.hash_algorithm.as_str());
        proof {
            lemma_preimage_assoc(*self);
        }
        let digest = sha256(buf.as_slice());
        proof {
            lemma_hex_lower_len(digest@);
        }
        hex_encode(&digest)
    }
}

} // verus!
