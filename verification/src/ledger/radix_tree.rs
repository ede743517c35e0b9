//! KV-cache locality ledger.
//!
//! Engine page hashes are recursive digests (`h_i = SHA256(h_{i-1} ++ tokens_i)`),
//! so a block hash identifies its whole prefix path. A flat map from block hash
//! to the workers holding that block therefore carries the same information as
//! a materialized trie.

use crate::ids::{
    find_id, ids_of, lemma_ids_push, lemma_ids_remove, lemma_push_contains, lemma_push_no_duplicates,
    lemma_remove_to_set, entries_satisfy, lemma_entries_push, lemma_entries_extend,
};
use dashmap::DashMap;
use vstd::prelude::*;

verus! {

/// Block hash to the ids of the workers holding that block.
pub type BlockTable = DashMap<i64, Vec<String>>;

/// What a block table holds: for each block hash, the ids of its holders.
pub uninterp spec fn block_table(m: DashMap<i64, Vec<String>>) -> Map<i64, Seq<Seq<char>>>;

/// `DashMap::new`: a new map holds nothing.
#[verifier::external_body]
fn block_table_new() -> (r: BlockTable)
    ensures
        block_table(r).dom() == Set::<i64>::empty(),
{
    DashMap::new()
}

/// `DashMap::get` (cloning the value out): the holders stored under `hash`, if any.
#[verifier::external_body]
fn block_table_get(m: &DashMap<i64, Vec<String>>, hash: i64) -> (r: Option<Vec<String>>)
    ensures
        r is Some <==> block_table(*m).contains_key(hash),
        r matches Some(v) ==> ids_of(v@) == block_table(*m)[hash],
{
    m.get(&hash).map(|e| e.value().clone())
}

/// `DashMap::insert`: stores `holders` under `hash`, replacing what was there.
#[verifier::external_body]
fn block_table_insert(m: &mut DashMap<i64, Vec<String>>, hash: i64, holders: Vec<String>)
    ensures
        block_table(*final(m)) == block_table(*old(m)).insert(hash, ids_of(holders@)),
{
    m.insert(hash, holders);
}

/// `DashMap::remove`: drops the entry under `hash`, if any.
#[verifier::external_body]
fn block_table_remove(m: &mut DashMap<i64, Vec<String>>, hash: i64)
    ensures
        block_table(*final(m)) == block_table(*old(m)).remove(hash),
{
    m.remove(&hash);
}

/// `DashMap::len`: the number of entries.
#[verifier::external_body]
fn block_table_len(m: &DashMap<i64, Vec<String>>) -> (r: usize)
    ensures
        r == block_table(*m).len(),
{
    m.len()
}

/// `DashMap::iter`, keeping the keys. The order is that of the shards' hash
/// tables and is left unsaid; each key comes once.
#[verifier::external_body]
fn block_table_keys(m: &DashMap<i64, Vec<String>>) -> (r: Vec<i64>)
    ensures
        r@.to_set() == block_table(*m).dom(),
        r@.no_duplicates(),
{
    m.iter().map(|e| *e.key()).collect()
}

/// The workers recorded as holding block `h`.
pub open spec fn holders_of(m: Map<i64, Set<Seq<char>>>, h: i64) -> Set<Seq<char>> {
    if m.contains_key(h) {
        m[h]
    } else {
        Set::empty()
    }
}

/// Whether worker `w` is recorded as holding block `h`.
pub open spec fn holds(m: Map<i64, Set<Seq<char>>>, w: Seq<char>, h: i64) -> bool {
    m.contains_key(h) && m[h].contains(w)
}

/// The ledger after recording that `w` holds every block of `hs`.
pub open spec fn after_insert(m: Map<i64, Set<Seq<char>>>, w: Seq<char>, hs: Seq<i64>) -> Map<
    i64,
    Set<Seq<char>>,
> {
    Map::new(
        |h: i64| m.contains_key(h) || hs.contains(h),
        |h: i64|
            if hs.contains(h) {
                holders_of(m, h).insert(w)
            } else {
                m[h]
            },
    )
}

/// The ledger after `w` gave up the blocks of `hs`; blocks left without
/// holders disappear.
pub open spec fn after_remove(m: Map<i64, Set<Seq<char>>>, w: Seq<char>, hs: Seq<i64>) -> Map<
    i64,
    Set<Seq<char>>,
> {
    Map::new(
        |h: i64| m.contains_key(h) && (hs.contains(h) ==> m[h].remove(w) != Set::<Seq<char>>::empty()),
        |h: i64|
            if hs.contains(h) {
                m[h].remove(w)
            } else {
                m[h]
            },
    )
}

/// The ledger after `w` gave up every block.
pub open spec fn after_clear(m: Map<i64, Set<Seq<char>>>, w: Seq<char>) -> Map<
    i64,
    Set<Seq<char>>,
> {
    Map::new(
        |h: i64| m.contains_key(h) && m[h].remove(w) != Set::<Seq<char>>::empty(),
        |h: i64| m[h].remove(w),
    )
}

/// Number of leading blocks of `hs`, from position `i` on, that `w` holds
/// without interruption, plus `i`.
pub open spec fn lcp_from(m: Map<i64, Set<Seq<char>>>, w: Seq<char>, hs: Seq<i64>, i: int) -> int
    decreases hs.len() - i,
{
    if 0 <= i < hs.len() && holds(m, w, hs[i]) {
        lcp_from(m, w, hs, i + 1)
    } else {
        i
    }
}

/// Longest-common-prefix depth of `w` for the chain `hs`: the number of
/// leading blocks of `hs` that `w` holds.
pub open spec fn lcp_depth(m: Map<i64, Set<Seq<char>>>, w: Seq<char>, hs: Seq<i64>) -> int {
    lcp_from(m, w, hs, 0)
}

/// Whether `w` holds each of the first `d` blocks of `hs`.
pub open spec fn holds_prefix(m: Map<i64, Set<Seq<char>>>, w: Seq<char>, hs: Seq<i64>, d: int) -> bool {
    forall|j: int| 0 <= j < d ==> #[trigger] holds(m, w, hs[j])
}

/// The depth is characterized by: `w` holds that many leading blocks, and
/// either the chain ends there or `w` lacks the next block.
pub proof fn lemma_lcp_characterized(m: Map<i64, Set<Seq<char>>>, w: Seq<char>, hs: Seq<i64>, d: int)
    requires
        0 <= d <= hs.len(),
        holds_prefix(m, w, hs, d),
        d == hs.len() || !holds(m, w, hs[d]),
    ensures
        lcp_depth(m, w, hs) == d,
{
    lemma_lcp_from_reaches(m, w, hs, 0, d);
}

proof fn lemma_lcp_from_reaches(
    m: Map<i64, Set<Seq<char>>>,
    w: Seq<char>,
    hs: Seq<i64>,
    i: int,
    d: int,
)
    requires
        0 <= i <= d <= hs.len(),
        holds_prefix(m, w, hs, d),
        d == hs.len() || !holds(m, w, hs[d]),
    ensures
        lcp_from(m, w, hs, i) == d,
    decreases d - i,
{
    if i < d {
        assert(holds(m, w, hs[i]));
        lemma_lcp_from_reaches(m, w, hs, i + 1, d);
    }
}

/// The depth lies within the chain, `w` holds that many leading blocks, and
/// lacks the next one.
pub proof fn lemma_lcp_bounds(m: Map<i64, Set<Seq<char>>>, w: Seq<char>, hs: Seq<i64>)
    ensures
        0 <= lcp_depth(m, w, hs) <= hs.len(),
        holds_prefix(m, w, hs, lcp_depth(m, w, hs)),
        lcp_depth(m, w, hs) == hs.len() || !holds(m, w, hs[lcp_depth(m, w, hs)]),
{
    lemma_lcp_from_props(m, w, hs, 0);
}

proof fn lemma_lcp_from_props(m: Map<i64, Set<Seq<char>>>, w: Seq<char>, hs: Seq<i64>, i: int)
    requires
        0 <= i <= hs.len(),
    ensures
        i <= lcp_from(m, w, hs, i) <= hs.len(),
        forall|j: int| i <= j < lcp_from(m, w, hs, i) ==> #[trigger] holds(m, w, hs[j]),
        lcp_from(m, w, hs, i) == hs.len() || !holds(m, w, hs[lcp_from(m, w, hs, i)]),
    decreases hs.len() - i,
{
    if i < hs.len() && holds(m, w, hs[i]) {
        lemma_lcp_from_props(m, w, hs, i + 1);
    }
}

/// Longest-common-prefix depth of each worker that matched at least one
/// leading block.
pub struct LcpMatches {
    ids: Vec<String>,
    depths: Vec<usize>,
}

impl LcpMatches {
    #[verifier::type_invariant]
    spec fn well_formed(&self) -> bool {
        &&& self.ids@.len() == self.depths@.len()
        &&& ids_of(self.ids@).no_duplicates()
    }

    /// Matched depth of a worker, for the workers that matched.
    pub closed spec fn view(&self) -> Map<Seq<char>, usize> {
        Map::new(
            |w: Seq<char>| ids_of(self.ids@).contains(w),
            |w: Seq<char>| self.depths@[ids_of(self.ids@).index_of(w)],
        )
    }

    /// The matched depth of `worker_id`, if it matched.
    pub fn get(&self, worker_id: &str) -> (r: Option<usize>)
        ensures
            r == (if self@.contains_key(worker_id@) {
                Some(self@[worker_id@])
            } else {
                None::<usize>
            }),
    {
        proof {
            use_type_invariant(self);
        }
        let w = worker_id.to_owned();
        match find_id(&self.ids, &w) {
            Some(i) => {
                proof {
                    let s = ids_of(self.ids@);
                    assert(s[i as int] == w@);
                    assert(s.contains(w@));
                    let k = s.index_of(w@);
                    assert(s[k] == w@);
                    assert(k == i);
                }
                Some(self.depths[i])
            },
            None => None,
        }
    }

    /// Number of workers that matched.
    pub fn len(&self) -> (r: usize)
        ensures
            r == self@.len(),
    {
        proof {
            use_type_invariant(self);
            let s = ids_of(self.ids@);
            s.unique_seq_to_set();
            assert(self@.dom() =~= s.to_set());
        }
        self.ids.len()
    }

    pub fn is_empty(&self) -> (r: bool)
        ensures
            r == (self@.len() == 0),
    {
        self.len() == 0
    }
}

/// Entries recorded at `depth` for workers of `alive` that lack block `hash`.
spec fn dropped_at(m: Map<i64, Set<Seq<char>>>, alive: Seq<Seq<char>>, hash: i64, depth: usize) -> spec_fn(
    Seq<char>,
    usize,
) -> bool {
    |x: Seq<char>, d: usize| d == depth && alive.contains(x) && !holds(m, x, hash)
}

/// Entries giving the depth of an eligible worker that matched.
spec fn lcp_entry(m: Map<i64, Set<Seq<char>>>, e: Seq<Seq<char>>, hs: Seq<i64>) -> spec_fn(
    Seq<char>,
    usize,
) -> bool {
    |x: Seq<char>, d: usize| e.contains(x) && 1 <= d && lcp_depth(m, x, hs) == d
}

/// Entries recorded at `depth` for workers of `alive`.
spec fn kept_at(alive: Seq<Seq<char>>, depth: usize) -> spec_fn(Seq<char>, usize) -> bool {
    |x: Seq<char>, d: usize| d == depth && alive.contains(x)
}

/// A block table seen as sets of holders.
pub open spec fn holder_sets(t: Map<i64, Seq<Seq<char>>>) -> Map<i64, Set<Seq<char>>> {
    t.map_values(|s: Seq<Seq<char>>| s.to_set())
}

proof fn lemma_holder_sets_insert(t: Map<i64, Seq<Seq<char>>>, k: i64, v: Seq<Seq<char>>)
    ensures
        holder_sets(t.insert(k, v)) =~= holder_sets(t).insert(k, v.to_set()),
{
}

proof fn lemma_holder_sets_remove(t: Map<i64, Seq<Seq<char>>>, k: i64)
    ensures
        holder_sets(t.remove(k)) =~= holder_sets(t).remove(k),
{
}

/// After a worker records a chain, a lookup of that chain matches it in full.
pub proof fn lemma_insert_then_full_match(m: Map<i64, Set<Seq<char>>>, w: Seq<char>, hs: Seq<i64>)
    ensures
        lcp_depth(after_insert(m, w, hs), w, hs) == hs.len(),
{
    let m2 = after_insert(m, w, hs);
    assert forall|j: int| 0 <= j < hs.len() implies #[trigger] holds(m2, w, hs[j]) by {
        assert(hs.contains(hs[j]));
    }
    lemma_lcp_characterized(m2, w, hs, hs.len() as int);
}

/// Recording or evicting blocks for one worker leaves every other worker's
/// holdings as they were.
pub proof fn lemma_updates_isolate_workers(
    m: Map<i64, Set<Seq<char>>>,
    w: Seq<char>,
    other: Seq<char>,
    hs: Seq<i64>,
    h: i64,
)
    requires
        w != other,
    ensures
        holds(after_insert(m, w, hs), other, h) == holds(m, other, h),
        holds(after_remove(m, w, hs), other, h) == holds(m, other, h),
        holds(after_clear(m, w), other, h) == holds(m, other, h),
{
    if holds(m, other, h) {
        assert(m[h].remove(w).contains(other));
    }
}

/// Evicting a chain that a worker had just recorded, on blocks it did not
/// hold before, gives back the ledger as it was.
pub proof fn lemma_remove_undoes_insert(m: Map<i64, Set<Seq<char>>>, w: Seq<char>, hs: Seq<i64>)
    requires
        forall|h: i64| #[trigger] m.contains_key(h) ==> m[h] != Set::<Seq<char>>::empty(),
        forall|j: int| 0 <= j < hs.len() ==> !#[trigger] holds(m, w, hs[j]),
    ensures
        after_remove(after_insert(m, w, hs), w, hs) == m,
{
    let a = after_insert(m, w, hs);
    let b = after_remove(a, w, hs);
    assert forall|h: i64| #[trigger] b.contains_key(h) <==> m.contains_key(h) by {
        if hs.contains(h) {
            let j = choose|j: int| 0 <= j < hs.len() && hs[j] == h;
            assert(!holds(m, w, hs[j]));
            assert(holders_of(m, h).insert(w).remove(w) =~= holders_of(m, h));
            if !m.contains_key(h) {
                assert(holders_of(m, h) =~= Set::<Seq<char>>::empty());
            }
        }
    }
    assert forall|h: i64| #[trigger] b.contains_key(h) implies b[h] == m[h] by {
        if hs.contains(h) {
            let j = choose|j: int| 0 <= j < hs.len() && hs[j] == h;
            assert(!holds(m, w, hs[j]));
            assert(holders_of(m, h).insert(w).remove(w) =~= holders_of(m, h));
        }
    }
    assert(b =~= m);
}

/// After a worker is cleared it holds no block, so it matches nothing.
pub proof fn lemma_clear_forgets_worker(m: Map<i64, Set<Seq<char>>>, w: Seq<char>, hs: Seq<i64>)
    ensures
        forall|h: i64| !holds(#[trigger] after_clear(m, w), w, h),
        lcp_depth(after_clear(m, w), w, hs) == 0,
{
    let c = after_clear(m, w);
    if hs.len() > 0 {
        assert(!holds(c, w, hs[0]));
    }
    lemma_lcp_characterized(c, w, hs, 0);
}

/// Evicting block `hs[k]` from a worker caps its match on `hs` at `k`: the
/// match stops at the first block it lacks.
pub proof fn lemma_eviction_caps_match(m: Map<i64, Set<Seq<char>>>, w: Seq<char>, hs: Seq<i64>, k: int)
    requires
        0 <= k < hs.len(),
    ensures
        lcp_depth(after_remove(m, w, seq![hs[k]]), w, hs) <= k,
{
    let r = after_remove(m, w, seq![hs[k]]);
    assert(seq![hs[k]].contains(hs[k])) by {
        assert(seq![hs[k]][0] == hs[k]);
    }
    assert(!holds(r, w, hs[k]));
    lemma_lcp_bounds(r, w, hs);
    if lcp_depth(r, w, hs) > k {
        assert(holds(r, w, hs[k]));
    }
}

/// Ledger of which workers hold which KV-cache blocks.
pub struct RadixHashTree {
    blocks: DashMap<i64, Vec<String>>,
}

impl View for RadixHashTree {
    type V = Map<i64, Set<Seq<char>>>;

    closed spec fn view(&self) -> Map<i64, Set<Seq<char>>> {
        holder_sets(block_table(self.blocks))
    }
}

impl RadixHashTree {
    /// Every recorded block has at least one holder, listed once.
    pub closed spec fn wf(&self) -> bool {
        let t = block_table(self.blocks);
        &&& t.dom().finite()
        &&& forall|h: i64| #[trigger] t.contains_key(h) ==> t[h].no_duplicates() && t[h].len() > 0
    }

    proof fn lemma_view_facts(&self)
        requires
            self.wf(),
        ensures
            self@.dom() == block_table(self.blocks).dom(),
            self@.dom().finite(),
            forall|h: i64| #[trigger]
                self@.contains_key(h) ==> self@[h] == block_table(self.blocks)[h].to_set()
                    && self@[h] != Set::<Seq<char>>::empty(),
    {
        let t = block_table(self.blocks);
        assert(self@.dom() =~= t.dom());
        assert forall|h: i64| #[trigger] self@.contains_key(h) implies self@[h] != Set::<
            Seq<char>,
        >::empty() by {
            assert(self@[h].contains(t[h][0]));
        }
    }

    /// Every recorded block has at least one holder, and there are finitely many.
    pub proof fn lemma_every_block_held(&self)
        requires
            self.wf(),
        ensures
            self@.dom().finite(),
            forall|h: i64| #[trigger]
                self@.contains_key(h) ==> self@[h] != Set::<Seq<char>>::empty(),
    {
        self.lemma_view_facts();
    }

    pub fn new() -> (r: Self)
        ensures
            r.wf(),
            r@ == Map::<i64, Set<Seq<char>>>::empty(),
    {
        let r = RadixHashTree { blocks: block_table_new() };
        assert(r@ =~= Map::<i64, Set<Seq<char>>>::empty());
        r
    }

    /// Records that `worker_id` holds every block of `page_hashes`.
    pub fn insert_chain(&mut self, worker_id: &str, page_hashes: &[i64])
        requires
            old(self).wf(),
        ensures
            final(self).wf(),
            final(self)@ == after_insert(old(self)@, worker_id@, page_hashes@),
    {
        let w = worker_id.to_owned();
        let ghost m0 = self@;
        proof {
            self.lemma_view_facts();
            assert(after_insert(m0, w@, page_hashes@.take(0)) =~= m0);
        }
        let mut i: usize = 0;
        while i < page_hashes.len()
            invariant
                i <= page_hashes@.len(),
                w@ == worker_id@,
                self.wf(),
                self@ == after_insert(m0, w@, page_hashes@.take(i as int)),
            decreases page_hashes@.len() - i,
        {
            let hash = page_hashes[i];
            let ghost before = self@;
            proof {
                self.lemma_view_facts();
            }
            match block_table_get(&self.blocks, hash) {
                Some(mut holders) => {
                    let found = find_id(&holders, &w);
                    if found.is_none() {
                        proof {
                            ids_of(holders@).lemma_push_to_set_commute(w@);
                            lemma_ids_push(holders@, w);
                            lemma_holder_sets_insert(block_table(self.blocks), hash, ids_of(holders@).push(w@));
                            assert(ids_of(holders@).push(w@).to_set() =~= before[hash].insert(w@));
                        }
                        holders.push(w.clone());
                        block_table_insert(&mut self.blocks, hash, holders);
                        assert(self@ == before.insert(hash, holders_of(before, hash).insert(w@)));
                    } else {
                        let pos = found.unwrap();
                        assert(ids_of(holders@)[pos as int] == w@);
                        assert(before[hash].contains(w@));
                        assert(holders_of(before, hash).insert(w@) =~= holders_of(before, hash));
                        assert(before.insert(hash, holders_of(before, hash).insert(w@)) =~= before);
                    }
                },
                None => {
                    let mut holders: Vec<String> = Vec::new();
                    holders.push(w.clone());
                    proof {
                        lemma_ids_push(Seq::empty(), w);
                        lemma_holder_sets_insert(block_table(self.blocks), hash, seq![w@]);
                        assert(seq![w@].to_set() =~= Set::<Seq<char>>::empty().insert(w@)) by {
                            assert(seq![w@][0] == w@);
                        }
                        assert(ids_of(holders@) =~= seq![w@]);
                    }
                    block_table_insert(&mut self.blocks, hash, holders);
                },
            }
            assert(self@ == before.insert(hash, holders_of(before, hash).insert(w@)));
            proof {
                self.lemma_view_facts();
                let next = after_insert(m0, w@, page_hashes@.take(i + 1));
                let prev = page_hashes@.take(i as int);
                assert(page_hashes@.take(i + 1) =~= prev.push(hash));
                assert forall|h: i64| prev.push(hash).contains(h) <==> prev.contains(h) || h == hash by {
                    if h == hash {
                        assert(prev.push(hash)[prev.len() as int] == hash);
                    }
                    if prev.contains(h) {
                        let k = choose|k: int| 0 <= k < prev.len() && prev[k] == h;
                        assert(prev.push(hash)[k] == h);
                    }
                }
                assert forall|h: i64| #[trigger] next.contains_key(h) implies self@[h] =~= next[h] by {
                    if h == hash && prev.contains(h) {
                        assert(holders_of(m0, h).insert(w@).insert(w@) =~= holders_of(m0, h).insert(w@));
                    }
                }
                assert(self@ =~= next);
            }
            i += 1;
        }
        proof {
            assert(page_hashes@.take(i as int) =~= page_hashes@);
        }
    }

    /// Drops `worker_id` from the holders of block `hash`; a block left
    /// without holders is removed.
    fn drop_holder(&mut self, w: &String, hash: i64)
        requires
            old(self).wf(),
        ensures
            final(self).wf(),
            final(self)@ == after_remove(old(self)@, w@, seq![hash]),
    {
        let ghost before = self@;
        proof {
            self.lemma_view_facts();
        }
        if let Some(mut holders) = block_table_get(&self.blocks, hash) {
            if let Some(pos) = find_id(&holders, w) {
                proof {
                    lemma_ids_remove(holders@, pos as int);
                    lemma_remove_to_set(ids_of(holders@), pos as int);
                    assert(ids_of(holders@)[pos as int] == w@);
                }
                holders.remove(pos);
                if holders.len() == 0 {
                    proof {
                        lemma_holder_sets_remove(block_table(self.blocks), hash);
                        assert(ids_of(holders@) =~= Seq::<Seq<char>>::empty());
                        assert(before[hash].remove(w@) =~= Set::<Seq<char>>::empty());
                    }
                    block_table_remove(&mut self.blocks, hash);
                    assert(self@ == before.remove(hash));
                } else {
                    proof {
                        lemma_holder_sets_insert(block_table(self.blocks), hash, ids_of(holders@));
                    }
                    block_table_insert(&mut self.blocks, hash, holders);
                    proof {
                        assert(self@ == before.insert(hash, before[hash].remove(w@)));
                        assert(self@[hash].contains(ids_of(holders@)[0]));
                    }
                }
            } else {
                proof {
                    assert(!before[hash].contains(w@));
                    assert(before[hash].remove(w@) =~= before[hash]);
                }
            }
        }
        proof {
            self.lemma_view_facts();
            let next = after_remove(before, w@, seq![hash]);
            assert(seq![hash].contains(hash)) by {
                assert(seq![hash][0] == hash);
            }
            assert forall|h: i64| h != hash implies !seq![hash].contains(h) by {}
            assert forall|h: i64| self@.contains_key(h) <==> next.contains_key(h) by {}
            assert forall|h: i64| #[trigger] self@.contains_key(h) implies self@[h] =~= next[h] by {}
            assert(self@ =~= next);
        }
    }

    /// Removes `worker_id` from the holders of each block of `page_hashes`
    /// (an engine eviction); blocks left without holders disappear.
    pub fn remove_chain(&mut self, worker_id: &str, page_hashes: &[i64])
        requires
            old(self).wf(),
        ensures
            final(self).wf(),
            final(self)@ == after_remove(old(self)@, worker_id@, page_hashes@),
    {
        let w = worker_id.to_owned();
        let ghost m0 = self@;
        proof {
            self.lemma_view_facts();
            assert(after_remove(m0, w@, page_hashes@.take(0)) =~= m0);
        }
        let mut i: usize = 0;
        while i < page_hashes.len()
            invariant
                i <= page_hashes@.len(),
                w@ == worker_id@,
                self.wf(),
                m0.dom().finite(),
                self@ == after_remove(m0, w@, page_hashes@.take(i as int)),
            decreases page_hashes@.len() - i,
        {
            let hash = page_hashes[i];
            let ghost before = self@;
            self.drop_holder(&w, hash);
            proof {
                lemma_after_remove_step(m0, w@, page_hashes@.take(i as int), hash);
                assert(page_hashes@.take(i + 1) =~= page_hashes@.take(i as int).push(hash));
            }
            i += 1;
        }
        proof {
            assert(page_hashes@.take(i as int) =~= page_hashes@);
        }
    }

    /// Removes `worker_id` from the holders of every block.
    pub fn clear_worker(&mut self, worker_id: &str)
        requires
            old(self).wf(),
        ensures
            final(self).wf(),
            final(self)@ == after_clear(old(self)@, worker_id@),
    {
        let w = worker_id.to_owned();
        let ghost m0 = self@;
        let keys = block_table_keys(&self.blocks);
        proof {
            self.lemma_view_facts();
            assert(after_remove(m0, w@, keys@.take(0)) =~= m0);
        }
        let mut i: usize = 0;
        while i < keys.len()
            invariant
                i <= keys@.len(),
                w@ == worker_id@,
                self.wf(),
                m0.dom().finite(),
                self@ == after_remove(m0, w@, keys@.take(i as int)),
            decreases keys@.len() - i,
        {
            let hash = keys[i];
            self.drop_holder(&w, hash);
            proof {
                lemma_after_remove_step(m0, w@, keys@.take(i as int), hash);
                assert(keys@.take(i + 1) =~= keys@.take(i as int).push(hash));
            }
            i += 1;
        }
        proof {
            assert(keys@.take(i as int) =~= keys@);
            let a = after_remove(m0, w@, keys@);
            let b = after_clear(m0, w@);
            assert forall|h: i64| a.contains_key(h) <==> b.contains_key(h) by {
                if m0.contains_key(h) {
                    assert(keys@.to_set().contains(h));
                }
            }
            assert forall|h: i64| #[trigger] a.contains_key(h) implies a[h] == b[h] by {
                assert(keys@.to_set().contains(h));
            }
            assert(a =~= b);
        }
    }

    /// Splits `alive` into the workers that hold block `hash` (returned) and
    /// those that do not; the latter are appended to `ids` with depth `depth`
    /// when `depth > 0`.
    fn split_alive(
        &self,
        alive: &Vec<String>,
        hash: i64,
        depth: usize,
        ids: &mut Vec<String>,
        depths: &mut Vec<usize>,
    ) -> (next: Vec<String>)
        requires
            self.wf(),
            ids_of(alive@).no_duplicates(),
            old(ids)@.len() == old(depths)@.len(),
            ids_of(old(ids)@).no_duplicates(),
            forall|w: Seq<char>| #[trigger]
                ids_of(old(ids)@).contains(w) ==> !ids_of(alive@).contains(w),
        ensures
            ids_of(next@).no_duplicates(),
            forall|w: Seq<char>| #[trigger]
                ids_of(next@).contains(w) <==> ids_of(alive@).contains(w) && holds(self@, w, hash),
            final(ids)@.len() == final(depths)@.len(),
            ids_of(final(ids)@).no_duplicates(),
            forall|w: Seq<char>| #[trigger]
                ids_of(final(ids)@).contains(w) <==> ids_of(old(ids)@).contains(w) || (ids_of(
                    alive@,
                ).contains(w) && !holds(self@, w, hash) && depth > 0),
            old(ids)@.len() <= final(ids)@.len(),
            depth == 0 ==> final(ids)@.len() == old(ids)@.len(),
            forall|k: int|
                0 <= k < old(ids)@.len() ==> final(ids)@[k] == old(ids)@[k] && final(depths)@[k]
                    == old(depths)@[k],
            entries_satisfy(
                final(ids)@,
                final(depths)@,
                old(ids)@.len() as int,
                dropped_at(self@, ids_of(alive@), hash, depth),
            ),
    {
        proof {
            self.lemma_view_facts();
        }
        let ghost ids0 = ids@;
        let ghost depths0 = depths@;
        let holders = block_table_get(&self.blocks, hash);
        let mut next: Vec<String> = Vec::new();
        let mut j: usize = 0;
        while j < alive.len()
            invariant
                self.wf(),
                j <= alive@.len(),
                ids_of(alive@).no_duplicates(),
                holders is Some <==> self@.contains_key(hash),
                holders matches Some(v) ==> ids_of(v@).to_set() == self@[hash],
                ids_of(next@).no_duplicates(),
                forall|w: Seq<char>| #[trigger]
                    ids_of(next@).contains(w) <==> ids_of(alive@.take(j as int)).contains(w) && holds(
                        self@,
                        w,
                        hash,
                    ),
                ids@.len() == depths@.len(),
                ids0.len() == depths0.len(),
                ids0.len() <= ids@.len(),
                depth == 0 ==> ids@.len() == ids0.len(),
                ids_of(ids@).no_duplicates(),
                forall|w: Seq<char>| #[trigger] ids_of(ids0).contains(w) ==> !ids_of(alive@).contains(w),
                forall|w: Seq<char>| #[trigger]
                    ids_of(ids@).contains(w) <==> ids_of(ids0).contains(w) || (ids_of(
                        alive@.take(j as int),
                    ).contains(w) && !holds(self@, w, hash) && depth > 0),
                forall|k: int|
                    0 <= k < ids0.len() ==> ids@[k] == ids0[k] && depths@[k] == depths0[k],
                entries_satisfy(ids@, depths@, ids0.len() as int, dropped_at(self@, ids_of(alive@), hash, depth)),
            decreases alive@.len() - j,
        {
            let w = &alive[j];
            let keep = match &holders {
                Some(v) => find_id(v, w).is_some(),
                None => false,
            };
            let ghost t = alive@.take(j as int);
            proof {
                if keep {
                    let v = holders.unwrap();
                    let pos = choose|p: int| 0 <= p < v@.len() && v@[p]@ == w@;
                    assert(ids_of(v@)[pos] == w@);
                    assert(ids_of(v@).to_set().contains(w@));
                    assert(holds(self@, w@, hash));
                } else {
                    if holds(self@, w@, hash) {
                        let v = holders.unwrap();
                        assert(ids_of(v@).to_set().contains(w@));
                    }
                }
                assert(ids_of(alive@)[j as int] == w@);
                assert(alive@.take(j + 1) =~= t.push(alive@[j as int]));
                lemma_ids_push(t, alive@[j as int]);
                lemma_push_contains(ids_of(t), w@);
                assert(!ids_of(t).contains(w@)) by {
                    if ids_of(t).contains(w@) {
                        let k = choose|k: int| 0 <= k < ids_of(t).len() && ids_of(t)[k] == w@;
                        assert(ids_of(alive@)[k] == w@);
                    }
                }
                assert(ids_of(alive@).contains(w@));
            }
            if keep {
                proof {
                    lemma_ids_push(next@, *w);
                    lemma_push_contains(ids_of(next@), w@);
                    lemma_push_no_duplicates(ids_of(next@), w@);
                }
                next.push(w.clone());
            } else if depth > 0 {
                proof {
                    lemma_ids_push(ids@, *w);
                    lemma_push_contains(ids_of(ids@), w@);
                    lemma_push_no_duplicates(ids_of(ids@), w@);
                    assert(ids@.push(*w)[ids@.len() as int]@ == w@);
                }
                let ghost pre_ids = ids@;
                let ghost pre_depths = depths@;
                ids.push(w.clone());
                depths.push(depth);
                proof {
                    lemma_entries_push(
                        pre_ids,
                        pre_depths,
                        ids0.len() as int,
                        dropped_at(self@, ids_of(alive@), hash, depth),
                        *w,
                        depth,
                    );
                    assert forall|k: int| 0 <= k < ids0.len() implies ids@[k] == ids0[k] && depths@[k]
                        == depths0[k] by {
                        assert(ids@[k] == pre_ids[k]);
                        assert(depths@[k] == pre_depths[k]);
                    }
                }
            }
            j += 1;
        }
        proof {
            assert(alive@.take(j as int) =~= alive@);
        }
        next
    }

    /// For each eligible worker, the number of leading blocks of
    /// `page_hashes` it holds; workers that hold none are left out.
    pub fn find_lcp_matches(&self, page_hashes: &[i64], eligible_workers: &[String]) -> (r:
        LcpMatches)
        requires
            self.wf(),
        ensures
            forall|w: Seq<char>|
                r@.contains_key(w) <==> ids_of(eligible_workers@).contains(w) && lcp_depth(
                    self@,
                    w,
                    page_hashes@,
                ) > 0,
            forall|w: Seq<char>|
                r@.contains_key(w) ==> r@[w] == lcp_depth(self@, w, page_hashes@),
    {
        let ghost m = self@;
        let ghost hs = page_hashes@;
        let ghost e = ids_of(eligible_workers@);
        let mut ids: Vec<String> = Vec::new();
        let mut depths: Vec<usize> = Vec::new();
        if page_hashes.len() == 0 {
            let r = LcpMatches { ids, depths };
            proof {
                assert forall|w: Seq<char>| !(lcp_depth(m, w, hs) > 0) by {
                    lemma_lcp_bounds(m, w, hs);
                }
                assert forall|w: Seq<char>| !r@.contains_key(w) by {
                    assert(ids_of(r.ids@) =~= Seq::<Seq<char>>::empty());
                }
            }
            return r;
        }
        // Eligible workers, each once.
        let mut alive: Vec<String> = Vec::new();
        let mut k: usize = 0;
        while k < eligible_workers.len()
            invariant
                k <= eligible_workers@.len(),
                e == ids_of(eligible_workers@),
                ids_of(alive@).no_duplicates(),
                forall|w: Seq<char>| #[trigger]
                    ids_of(alive@).contains(w) <==> ids_of(eligible_workers@.take(k as int)).contains(w),
            decreases eligible_workers@.len() - k,
        {
            let w = &eligible_workers[k];
            let ghost t = eligible_workers@.take(k as int);
            proof {
                assert(eligible_workers@.take(k + 1) =~= t.push(eligible_workers@[k as int]));
                lemma_ids_push(t, eligible_workers@[k as int]);
                lemma_push_contains(ids_of(t), w@);
            }
            let found = find_id(&alive, w);
            if found.is_none() {
                proof {
                    lemma_ids_push(alive@, *w);
                    lemma_push_contains(ids_of(alive@), w@);
                    lemma_push_no_duplicates(ids_of(alive@), w@);
                }
                alive.push(w.clone());
            } else {
                proof {
                    let p = found.unwrap();
                    assert(ids_of(alive@)[p as int] == w@);
                }
            }
            k += 1;
        }
        proof {
            assert(eligible_workers@.take(k as int) =~= eligible_workers@);
        }
        let mut depth: usize = 0;
        while depth < page_hashes.len() && alive.len() > 0
            invariant
                self.wf(),
                m == self@,
                hs == page_hashes@,
                hs.len() > 0,
                e == ids_of(eligible_workers@),
                depth <= hs.len(),
                ids_of(alive@).no_duplicates(),
                forall|w: Seq<char>| #[trigger]
                    ids_of(alive@).contains(w) <==> e.contains(w) && holds_prefix(
                        m,
                        w,
                        hs,
                        depth as int,
                    ),
                ids@.len() == depths@.len(),
                ids_of(ids@).no_duplicates(),
                forall|w: Seq<char>| #[trigger] ids_of(ids@).contains(w) ==> !ids_of(alive@).contains(w),
                entries_satisfy(ids@, depths@, 0, lcp_entry(m, e, hs)),
                forall|w: Seq<char>|
                    e.contains(w) && holds(m, w, hs[0]) && !holds_prefix(m, w, hs, depth as int)
                        ==> #[trigger] ids_of(ids@).contains(w),
            decreases hs.len() - depth,
        {
            let ghost ids0 = ids@;
            let ghost depths0 = depths@;
            let ghost alive0 = alive@;
            let next = self.split_alive(&alive, page_hashes[depth], depth, &mut ids, &mut depths);
            proof {
                let h = hs[depth as int];
                assert forall|w: Seq<char>|
                    holds_prefix(m, w, hs, depth + 1) <==> holds_prefix(m, w, hs, depth as int) && holds(
                        m,
                        w,
                        h,
                    ) by {
                    if holds_prefix(m, w, hs, depth + 1) {
                        assert(holds(m, w, hs[depth as int]));
                    }
                }
                assert forall|i: int| ids0.len() <= i < ids@.len() implies #[trigger] lcp_entry(m, e, hs)(
                    ids@[i]@,
                    depths@[i],
                ) by {
                    let w = ids@[i]@;
                    assert(dropped_at(m, ids_of(alive0), h, depth)(ids@[i]@, depths@[i]));
                    assert(ids_of(alive0).contains(w));
                    assert(e.contains(w) && holds_prefix(m, w, hs, depth as int));
                    lemma_lcp_characterized(m, w, hs, depth as int);
                }
                lemma_entries_extend(ids0, depths0, ids@, depths@, lcp_entry(m, e, hs));
                assert forall|w: Seq<char>|
                    e.contains(w) && holds(m, w, hs[0]) && !holds_prefix(m, w, hs, depth + 1)
                        implies #[trigger] ids_of(ids@).contains(w) by {
                    if holds_prefix(m, w, hs, depth as int) {
                        assert(ids_of(alive0).contains(w));
                        if depth == 0 {
                            assert(holds(m, w, h));
                        }
                    } else {
                        assert(ids_of(ids0).contains(w));
                    }
                }
            }
            alive = next;
            depth += 1;
        }
        // Workers still alive hold the whole chain.
        let ghost ids0 = ids@;
        let ghost depths0 = depths@;
        let ghost alive_end = alive@;
        proof {
            assert forall|w: Seq<char>| #[trigger] ids_of(alive@).contains(w) implies lcp_depth(m, w, hs)
                == depth && e.contains(w) by {
                lemma_lcp_characterized(m, w, hs, depth as int);
            }
        }
        let mut j: usize = 0;
        while j < alive.len()
            invariant
                j <= alive@.len(),
                alive@ == alive_end,
                alive@.len() > 0 ==> depth == hs.len() && depth > 0,
                forall|w: Seq<char>| #[trigger] ids_of(alive@).contains(w) ==> lcp_depth(m, w, hs)
                    == depth && e.contains(w),
                hs == page_hashes@,
                ids0.len() <= ids@.len(),
                ids0.len() == depths0.len(),
                ids@.len() == depths@.len(),
                ids_of(alive@).no_duplicates(),
                ids_of(ids@).no_duplicates(),
                forall|w: Seq<char>| #[trigger] ids_of(ids0).contains(w) ==> !ids_of(alive@).contains(w),
                forall|i: int| 0 <= i < ids0.len() ==> ids@[i] == ids0[i] && depths@[i] == depths0[i],
                entries_satisfy(ids@, depths@, ids0.len() as int, kept_at(ids_of(alive_end), depth)),
                forall|w: Seq<char>| #[trigger]
                    ids_of(ids@).contains(w) <==> ids_of(ids0).contains(w) || ids_of(
                        alive@.take(j as int),
                    ).contains(w),
            decreases alive@.len() - j,
        {
            let w = &alive[j];
            let ghost t = alive@.take(j as int);
            proof {
                assert(ids_of(alive@)[j as int] == w@);
                assert(ids_of(alive@).contains(w@));
                assert(alive@.take(j + 1) =~= t.push(alive@[j as int]));
                lemma_ids_push(t, alive@[j as int]);
                lemma_push_contains(ids_of(t), w@);
                lemma_ids_push(ids@, *w);
                lemma_push_contains(ids_of(ids@), w@);
                assert(!ids_of(t).contains(w@)) by {
                    if ids_of(t).contains(w@) {
                        let i = choose|i: int| 0 <= i < ids_of(t).len() && ids_of(t)[i] == w@;
                        assert(ids_of(alive@)[i] == w@);
                    }
                }
                lemma_push_no_duplicates(ids_of(ids@), w@);
                assert(ids@.push(*w)[ids@.len() as int]@ == w@);
            }
            let ghost pre_ids = ids@;
            let ghost pre_depths = depths@;
            ids.push(w.clone());
            depths.push(depth);
            proof {
                lemma_entries_push(pre_ids, pre_depths, ids0.len() as int, kept_at(ids_of(alive_end), depth), *w, depth);
                assert forall|k: int| 0 <= k < ids0.len() implies ids@[k] == ids0[k] && depths@[k]
                    == depths0[k] by {
                    assert(ids@[k] == pre_ids[k]);
                    assert(depths@[k] == pre_depths[k]);
                }
            }
            j += 1;
        }
        proof {
            assert(alive@.take(j as int) =~= alive@);
        }
        let r = LcpMatches { ids, depths };
        proof {
            let s = ids_of(r.ids@);
            assert forall|i: int| ids0.len() <= i < r.ids@.len() implies #[trigger] lcp_entry(m, e, hs)(
                r.ids@[i]@,
                r.depths@[i],
            ) by {
                assert(kept_at(ids_of(alive_end), depth)(r.ids@[i]@, r.depths@[i]));
                assert(ids_of(alive@).contains(r.ids@[i]@));
            }
            lemma_entries_extend(ids0, depths0, r.ids@, r.depths@, lcp_entry(m, e, hs));
            assert forall|i: int| 0 <= i < r.ids@.len() implies e.contains(#[trigger] r.ids@[i]@) && 1
                <= r.depths@[i] && lcp_depth(m, r.ids@[i]@, hs) == r.depths@[i] by {
                assert(lcp_entry(m, e, hs)(r.ids@[i]@, r.depths@[i]));
            }
            assert forall|w: Seq<char>|
                r@.contains_key(w) <==> e.contains(w) && lcp_depth(m, w, hs) > 0 by {
                if e.contains(w) && lcp_depth(m, w, hs) > 0 {
                    lemma_lcp_bounds(m, w, hs);
                    assert(holds(m, w, hs[0]));
                    if holds_prefix(m, w, hs, depth as int) {
                        assert(ids_of(alive@).contains(w));
                    } else {
                        assert(ids_of(ids0).contains(w));
                    }
                    assert(s.contains(w));
                }
                if r@.contains_key(w) {
                    let i = choose|i: int| 0 <= i < s.len() && s[i] == w;
                    assert(e.contains(r.ids@[i]@));
                }
            }
            assert forall|w: Seq<char>| r@.contains_key(w) implies r@[w] == lcp_depth(m, w, hs) by {
                let i = s.index_of(w);
                assert(s[i] == w);
                assert(lcp_depth(m, r.ids@[i]@, hs) == r.depths@[i]);
            }
        }
        r
    }

    /// Number of blocks held by at least one worker.
    pub fn total_cached_blocks(&self) -> (r: usize)
        requires
            self.wf(),
        ensures
            r == self@.len(),
    {
        proof {
            self.lemma_view_facts();
        }
        block_table_len(&self.blocks)
    }
}

/// Removing one more hash extends the removed prefix by that hash.
proof fn lemma_after_remove_step(m: Map<i64, Set<Seq<char>>>, w: Seq<char>, hs: Seq<i64>, hash: i64)
    ensures
        after_remove(after_remove(m, w, hs), w, seq![hash]) =~= after_remove(m, w, hs.push(hash)),
{
    let a = after_remove(after_remove(m, w, hs), w, seq![hash]);
    let b = after_remove(m, w, hs.push(hash));
    assert forall|h: i64| a.contains_key(h) <==> b.contains_key(h) by {
        assert(seq![hash].contains(h) <==> h == hash) by {
            if h == hash {
                assert(seq![hash][0] == hash);
            }
        }
        assert(hs.push(hash).contains(h) <==> hs.contains(h) || h == hash) by {
            if h == hash {
                assert(hs.push(hash)[hs.len() as int] == hash);
            }
            if hs.contains(h) {
                let k = choose|k: int| 0 <= k < hs.len() && hs[k] == h;
                assert(hs.push(hash)[k] == h);
            }
        }
        if hs.contains(h) && h == hash && m.contains_key(h) {
            assert(m[h].remove(w).remove(w) =~= m[h].remove(w));
        }
    }
    assert forall|h: i64| #[trigger] a.contains_key(h) implies a[h] =~= b[h] by {
        assert(seq![hash].contains(h) <==> h == hash) by {
            if h == hash {
                assert(seq![hash][0] == hash);
            }
        }
        assert(hs.push(hash).contains(h) <==> hs.contains(h) || h == hash) by {
            if h == hash {
                assert(hs.push(hash)[hs.len() as int] == hash);
            }
            if hs.contains(h) {
                let k = choose|k: int| 0 <= k < hs.len() && hs[k] == h;
                assert(hs.push(hash)[k] == h);
            }
        }
    }
}

} // verus!
