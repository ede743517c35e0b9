//! Engine-compatible recursive page hashes.
//!
//! Each page of `page_size` tokens is hashed recursively:
//! page 0 is `SHA256(tokens[0..page_size] as little-endian u32)`, page `i`
//! is `SHA256(digest[i-1] ++ tokens of page i)`. A page hash is the first
//! eight digest bytes read as a big-endian signed 64-bit integer.

use crate::bytes::{be_prefix_u64, be_value, le_bytes_u32, push_all, push_u32_le};
use crate::hasher::digest::{sha256, sha256_spec};
use vstd::prelude::*;

verus! {

broadcast use vstd::array::group_array_axioms;

/// Little-endian bytes of a token sequence.
pub open spec fn tokens_le(s: Seq<u32>) -> Seq<u8>
    decreases s.len(),
{
    if s.len() == 0 {
        Seq::empty()
    } else {
        tokens_le(s.drop_last()) + le_bytes_u32(s.last())
    }
}

/// The tokens of page `i`.
pub open spec fn page_tokens(tokens: Seq<u32>, page_size: int, i: int) -> Seq<u32> {
    tokens.subrange(i * page_size, (i + 1) * page_size)
}

/// The digest of page `i`, chained over the digests of the pages before it.
pub open spec fn page_digest(tokens: Seq<u32>, page_size: int, i: nat) -> Seq<u8>
    decreases i,
{
    if i == 0 {
        sha256_spec(tokens_le(page_tokens(tokens, page_size, 0)))
    } else {
        sha256_spec(
            page_digest(tokens, page_size, (i - 1) as nat) + tokens_le(page_tokens(tokens, page_size, i as int)),
        )
    }
}

/// The hash of page `i`: its digest's first eight bytes, big-endian, signed.
pub open spec fn page_hash(tokens: Seq<u32>, page_size: int, i: nat) -> i64 {
    be_value(page_digest(tokens, page_size, i).take(8)) as i64
}

/// Number of whole pages.
pub open spec fn page_count(tokens: Seq<u32>, page_size: int) -> int {
    if tokens.len() == 0 || page_size == 0 {
        0
    } else {
        tokens.len() as int / page_size
    }
}

proof fn lemma_page_fits(len: int, page_size: int, i: int)
    requires
        page_size > 0,
        len >= 0,
        0 <= i < len / page_size,
    ensures
        (i + 1) * page_size <= len,
        i * page_size + page_size <= len,
        0 <= i * page_size,
{
    assert((i + 1) * page_size == i * page_size + page_size) by (nonlinear_arith);
    assert((i + 1) * page_size <= len) by (nonlinear_arith)
        requires
            page_size > 0,
            0 <= i,
            i < len / page_size,
            len >= 0,
    ;
    assert(0 <= i * page_size) by (nonlinear_arith)
        requires
            page_size > 0,
            0 <= i,
    ;
}

/// The page hashes of a token sequence; a trailing partial page is not
/// hashed.
pub fn compute_sglang_page_hashes(token_ids: &[u32], page_size: usize) -> (r: Vec<i64>)
    ensures
        r@.len() == page_count(token_ids@, page_size as int),
        forall|i: int| 0 <= i < r@.len() ==> r@[i] == page_hash(token_ids@, page_size as int, i as nat),
{
    let mut page_hashes: Vec<i64> = Vec::new();
    if token_ids.len() == 0 || page_size == 0 {
        return page_hashes;
    }
    let n = token_ids.len();
    let num_pages = n / page_size;
    let mut prev: [u8; 32] = [0u8; 32];
    let mut i: usize = 0;
    while i < num_pages
        invariant
            page_size > 0,
            n == token_ids@.len(),
            num_pages == (n as int) / (page_size as int),
            i <= num_pages,
            page_hashes@.len() == i,
            forall|k: int| 0 <= k < i ==> page_hashes@[k] == page_hash(token_ids@, page_size as int, k as nat),
            i > 0 ==> prev@ == page_digest(token_ids@, page_size as int, (i - 1) as nat),
        decreases num_pages - i,
    {
        proof {
            lemma_page_fits(n as int, page_size as int, i as int);
            assert(i * page_size + page_size <= n);
        }
        let start = i * page_size;
        let mut buf: Vec<u8> = Vec::new();
        if i > 0 {
            push_all(&mut buf, &prev);
        }
        let ghost head = buf@;
        let mut j: usize = 0;
        while j < page_size
            invariant
                page_size > 0,
                start == i * page_size,
                start + page_size <= token_ids@.len(),
                n == token_ids@.len(),
                j <= page_size,
                buf@ == head + tokens_le(token_ids@.subrange(start as int, start + j)),
            decreases page_size - j,
        {
            push_u32_le(&mut buf, token_ids[start + j]);
            proof {
                let s = token_ids@.subrange(start as int, start + j + 1);
                assert(s.drop_last() =~= token_ids@.subrange(start as int, start + j));
                assert(s.last() == token_ids@[start + j]);
                assert(buf@ =~= head + tokens_le(s));
            }
            j += 1;
        }
        let digest = sha256(buf.as_slice());
        proof {
            assert((i + 1) * page_size == start + page_size) by (nonlinear_arith)
                requires
                    start == i * page_size,
            ;
            assert(token_ids@.subrange(start as int, start + page_size) =~= page_tokens(
                token_ids@,
                page_size as int,
                i as int,
            ));
            if i == 0 {
                assert(head =~= Seq::<u8>::empty());
                assert(buf@ =~= tokens_le(page_tokens(token_ids@, page_size as int, 0)));
            }
        }
        let v = be_prefix_u64(&digest, 8);
        let h = #[verifier::truncate] (v as i64);
        page_hashes.push(h);
        prev = digest;
        i += 1;
    }
    page_hashes
}

/// A page's hash depends only on the tokens up to the end of that page: two
/// token streams that agree there hash the page alike, whatever follows.
/// This is what lets a request's page hashes match the chain an engine
/// cached for another request sharing the prefix.
pub proof fn lemma_page_hash_depends_on_prefix(a: Seq<u32>, b: Seq<u32>, page_size: int, i: nat)
    requires
        page_size > 0,
        (i + 1) * page_size <= a.len(),
        (i + 1) * page_size <= b.len(),
        a.take((i + 1) * page_size) == b.take((i + 1) * page_size),
    ensures
        page_digest(a, page_size, i) == page_digest(b, page_size, i),
        page_hash(a, page_size, i) == page_hash(b, page_size, i),
    decreases i,
{
    let end = (i + 1) * page_size;
    assert(i * page_size + page_size == end) by (nonlinear_arith)
        requires
            end == (i + 1) * page_size,
    ;
    assert(0 <= i * page_size) by (nonlinear_arith)
        requires
            page_size > 0,
    ;
    assert(page_tokens(a, page_size, i as int) =~= page_tokens(b, page_size, i as int)) by {
        assert forall|k: int| 0 <= k < page_size implies #[trigger] page_tokens(a, page_size, i as int)[k]
            == page_tokens(b, page_size, i as int)[k] by {
            assert(a.take(end)[i * page_size + k] == b.take(end)[i * page_size + k]);
        }
    }
    if i > 0 {
        let j = (i - 1) as nat;
        assert((j + 1) * page_size == i * page_size) by (nonlinear_arith)
            requires
                j + 1 == i,
        ;
        assert(a.take((j + 1) * page_size) =~= b.take((j + 1) * page_size)) by {
            assert forall|k: int| 0 <= k < (j + 1) * page_size implies #[trigger] a.take((j + 1) * page_size)[k]
                == b.take((j + 1) * page_size)[k] by {
                assert(a.take(end)[k] == b.take(end)[k]);
            }
        }
        lemma_page_hash_depends_on_prefix(a, b, page_size, j);
    }
}

} // verus!
