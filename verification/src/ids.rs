//! Small verified helpers over lists of string identifiers.

use vstd::prelude::*;

verus! {

/// The identifiers of a list, as character sequences.
pub open spec fn ids_of(v: Seq<String>) -> Seq<Seq<char>> {
    v.map_values(|s: String| s@)
}

/// Whether two texts are equal.
pub fn same_text(a: &str, b: &str) -> (r: bool)
    ensures
        r == (a@ == b@),
{
    a.to_owned() == b.to_owned()
}

/// Position of `id` in `v`, if it occurs.
pub fn find_id(v: &Vec<String>, id: &String) -> (r: Option<usize>)
    ensures
        match r {
            Some(i) => i < v@.len() && v@[i as int]@ == id@ && forall|j: int|
                0 <= j < i ==> v@[j]@ != id@,
            None => !ids_of(v@).contains(id@),
        },
{
    let mut i: usize = 0;
    while i < v.len()
        invariant
            i <= v@.len(),
            forall|j: int| 0 <= j < i ==> v@[j]@ != id@,
        decreases v@.len() - i,
    {
        if v[i] == *id {
            return Some(i);
        }
        i += 1;
    }
    proof {
        assert forall|j: int| 0 <= j < ids_of(v@).len() implies ids_of(v@)[j] != id@ by {}
    }
    None
}

/// Removing the element at `i` from a list without duplicates removes
/// exactly that element from its set.
pub proof fn lemma_remove_to_set(s: Seq<Seq<char>>, i: int)
    requires
        s.no_duplicates(),
        0 <= i < s.len(),
    ensures
        s.remove(i).to_set() =~= s.to_set().remove(s[i]),
        s.remove(i).no_duplicates(),
{
    let r = s.remove(i);
    assert forall|x: Seq<char>| r.to_set().contains(x) <==> s.to_set().remove(s[i]).contains(x) by {
        if r.to_set().contains(x) {
            let k = choose|k: int| 0 <= k < r.len() && r[k] == x;
            if k < i {
                assert(s[k] == x);
            } else {
                assert(s[k + 1] == x);
            }
        }
        if s.to_set().remove(s[i]).contains(x) {
            let k = choose|k: int| 0 <= k < s.len() && s[k] == x;
            assert(k != i);
            if k < i {
                assert(r[k] == x);
            } else {
                assert(r[k - 1] == x);
            }
        }
    }
}

/// What a sequence contains after a `push`.
pub proof fn lemma_push_contains<A>(s: Seq<A>, x: A)
    ensures
        forall|y: A| #[trigger] s.push(x).contains(y) <==> s.contains(y) || y == x,
{
    assert forall|y: A| #[trigger] s.push(x).contains(y) <==> s.contains(y) || y == x by {
        if y == x {
            assert(s.push(x)[s.len() as int] == y);
        }
        if s.contains(y) {
            let k = choose|k: int| 0 <= k < s.len() && s[k] == y;
            assert(s.push(x)[k] == y);
        }
    }
}

/// Pushing a new element keeps a sequence free of duplicates.
pub proof fn lemma_push_no_duplicates<A>(s: Seq<A>, x: A)
    requires
        s.no_duplicates(),
        !s.contains(x),
    ensures
        s.push(x).no_duplicates(),
{
    assert forall|i: int, j: int|
        0 <= i < s.push(x).len() && 0 <= j < s.push(x).len() && i != j implies s.push(x)[i] != s.push(
        x,
    )[j] by {
        if i == s.len() as int {
            assert(s[j] == s.push(x)[j]);
        } else if j == s.len() as int {
            assert(s[i] == s.push(x)[i]);
        }
    }
}

/// Every entry from position `from` on satisfies `p`.
pub open spec fn entries_satisfy(
    ids: Seq<String>,
    depths: Seq<usize>,
    from: int,
    p: spec_fn(Seq<char>, usize) -> bool,
) -> bool {
    forall|k: int| from <= k < ids.len() ==> #[trigger] p(ids[k]@, depths[k])
}

pub proof fn lemma_entries_push(
    ids: Seq<String>,
    depths: Seq<usize>,
    from: int,
    p: spec_fn(Seq<char>, usize) -> bool,
    w: String,
    d: usize,
)
    requires
        0 <= from,
        ids.len() == depths.len(),
        entries_satisfy(ids, depths, from, p),
        p(w@, d),
    ensures
        entries_satisfy(ids.push(w), depths.push(d), from, p),
{
    assert forall|k: int| from <= k < ids.push(w).len() implies #[trigger] p(
        ids.push(w)[k]@,
        depths.push(d)[k],
    ) by {
        if k < ids.len() {
            assert(ids.push(w)[k] == ids[k]);
            assert(depths.push(d)[k] == depths[k]);
            assert(p(ids[k]@, depths[k]));
        }
    }
}

/// Entries that keep their prefix and satisfy `p` past it satisfy `p` throughout.
pub proof fn lemma_entries_extend(
    ids0: Seq<String>,
    depths0: Seq<usize>,
    ids: Seq<String>,
    depths: Seq<usize>,
    p: spec_fn(Seq<char>, usize) -> bool,
)
    requires
        ids0.len() <= ids.len(),
        ids0.len() <= depths0.len(),
        forall|k: int| 0 <= k < ids0.len() ==> ids[k] == ids0[k] && depths[k] == depths0[k],
        entries_satisfy(ids0, depths0, 0, p),
        entries_satisfy(ids, depths, ids0.len() as int, p),
    ensures
        entries_satisfy(ids, depths, 0, p),
{
    assert forall|k: int| 0 <= k < ids.len() implies #[trigger] p(ids[k]@, depths[k]) by {
        if k < ids0.len() {
            assert(ids[k] == ids0[k] && depths[k] == depths0[k]);
            assert(p(ids0[k]@, depths0[k]));
        }
    }
}

/// Mapping a list to its identifiers commutes with `push` and `remove`.
pub proof fn lemma_ids_push(v: Seq<String>, x: String)
    ensures
        ids_of(v.push(x)) =~= ids_of(v).push(x@),
{
}

pub proof fn lemma_ids_remove(v: Seq<String>, i: int)
    requires
        0 <= i < v.len(),
    ensures
        ids_of(v.remove(i)) =~= ids_of(v).remove(i),
{
}

} // verus!
