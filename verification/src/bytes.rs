//! Searching in bytes.

use vstd::prelude::*;

verus! {

/// Whether `p` stands in `b` at index `i`.
pub open spec fn stands_at(b: Seq<u8>, p: Seq<u8>, i: int) -> bool {
    &&& 0 <= i
    &&& i + p.len() <= b.len()
    &&& b.subrange(i, i + p.len()) == p
}

/// Whether `i` is the first index, from `from` on, at which `p` stands in `b`.
pub open spec fn first_at(b: Seq<u8>, p: Seq<u8>, from: int, i: int) -> bool {
    &&& from <= i
    &&& stands_at(b, p, i)
    &&& forall|j: int| from <= j < i ==> !stands_at(b, p, j)
}

/// The first index, from `from` on, at which `p` stands in `b`.
pub open spec fn find_bytes(b: Seq<u8>, p: Seq<u8>, from: int) -> Option<int> {
    if exists|i: int| first_at(b, p, from, i) {
        Some(choose|i: int| first_at(b, p, from, i))
    } else {
        None
    }
}

/// Two first indices are the same index.
pub proof fn lemma_first_at_unique(b: Seq<u8>, p: Seq<u8>, from: int, i: int, j: int)
    requires
        first_at(b, p, from, i),
        first_at(b, p, from, j),
    ensures
        i == j,
{
}

/// Nothing is found where `p` stands nowhere.
pub proof fn lemma_find_none(b: Seq<u8>, p: Seq<u8>, from: int)
    ensures
        find_bytes(b, p, from) is None <==> forall|j: int| from <= j ==> !stands_at(b, p, j),
{
    if exists|j: int| from <= j && stands_at(b, p, j) {
        let j = choose|j: int| from <= j && stands_at(b, p, j);
        lemma_some_first(b, p, from, j);
    }
}

proof fn lemma_some_first(b: Seq<u8>, p: Seq<u8>, from: int, j: int)
    requires
        from <= j,
        stands_at(b, p, j),
    ensures
        exists|i: int| first_at(b, p, from, i),
    decreases j - from,
{
    if exists|k: int| from <= k < j && stands_at(b, p, k) {
        let k = choose|k: int| from <= k < j && stands_at(b, p, k);
        lemma_some_first(b, p, from, k);
    } else {
        assert(first_at(b, p, from, j));
    }
}

/// Whether two runs of bytes are the same.
pub fn same_bytes(a: &[u8], b: &[u8]) -> (r: bool)
    ensures
        r == (a@ == b@),
{
    if a.len() != b.len() {
        return false;
    }
    let mut i: usize = 0;
    while i < a.len()
        invariant
            a@.len() == b@.len(),
            i <= a@.len(),
            forall|j: int| 0 <= j < i ==> a@[j] == b@[j],
        decreases a@.len() - i,
    {
        if a[i] != b[i] {
            return false;
        }
        i = i + 1;
    }
    proof {
        assert(a@ =~= b@);
    }
    true
}

fn is_at(b: &[u8], p: &[u8], i: usize) -> (r: bool)
    requires
        i + p@.len() <= b@.len(),
    ensures
        r == stands_at(b@, p@, i as int),
{
    let n: usize = b.len();
    let mut j: usize = 0;
    while j < p.len()
        invariant
            n == b@.len(),
            i + p@.len() <= b@.len(),
            j <= p@.len(),
            forall|k: int| 0 <= k < j ==> b@[i + k] == p@[k],
        decreases p@.len() - j,
    {
        if b[i + j] != p[j] {
            proof {
                assert(b@.subrange(i as int, i + p@.len())[j as int] != p@[j as int]);
            }
            return false;
        }
        j = j + 1;
    }
    proof {
        assert(b@.subrange(i as int, i + p@.len()) =~= p@);
    }
    true
}

/// The first index, from `from` on, at which `p` stands in `b`.
pub fn find(b: &[u8], p: &[u8], from: usize) -> (r: Option<usize>)
    ensures
        match r {
            Some(i) => find_bytes(b@, p@, from as int) == Some(i as int) && from <= i && i
                + p@.len() <= b@.len(),
            None => find_bytes(b@, p@, from as int) is None,
        },
{
    proof {
        lemma_find_none(b@, p@, from as int);
    }
    if p.len() > b.len() {
        return None;
    }
    let last: usize = b.len() - p.len();
    let mut i: usize = from;
    while i <= last
        invariant
            p@.len() <= b@.len(),
            last == b@.len() - p@.len(),
            from <= i,
            forall|j: int| from <= j < i ==> !stands_at(b@, p@, j),
            find_bytes(b@, p@, from as int) is None <==> forall|j: int|
                from <= j ==> !stands_at(b@, p@, j),
        decreases last + 1 - i,
    {
        if is_at(b, p, i) {
            proof {
                assert(first_at(b@, p@, from as int, i as int));
                let k = find_bytes(b@, p@, from as int)->0;
                lemma_first_at_unique(b@, p@, from as int, i as int, k);
            }
            return Some(i);
        }
        if i == usize::MAX {
            return None;
        }
        i = i + 1;
    }
    None
}

/// Searching finds the first place, from where it begins, at which the bytes stand one by
/// one, and finds nothing only where there is no such place.
pub proof fn law_first_place_is_found(b: Seq<u8>, p: Seq<u8>, from: int)
    requires
        0 <= from,
    ensures
        match find_bytes(b, p, from) {
            Some(i) => {
                &&& from <= i
                &&& i + p.len() <= b.len()
                &&& forall|k: int| 0 <= k < p.len() ==> b[i + k] == #[trigger] p[k]
                &&& forall|j: int| from <= j < i ==> !(#[trigger] stands_at(b, p, j))
            },
            None => forall|j: int| from <= j ==> !(#[trigger] stands_at(b, p, j)),
        },
{
    lemma_find_none(b, p, from);
    if let Some(i) = find_bytes(b, p, from) {
        assert(first_at(b, p, from, i));
        assert forall|k: int| 0 <= k < p.len() implies b[i + k] == #[trigger] p[k] by {
            assert(b.subrange(i, i + p.len())[k] == p[k]);
        }
    }
}

/// Bytes stand at a place exactly where each of them does.
pub proof fn law_bytes_stand_one_by_one(b: Seq<u8>, p: Seq<u8>, i: int)
    ensures
        stands_at(b, p, i) <==> 0 <= i && i + p.len() <= b.len() && forall|k: int|
            0 <= k < p.len() ==> b[i + k] == #[trigger] p[k],
{
    if 0 <= i && i + p.len() <= b.len() {
        let part = b.subrange(i, i + p.len());
        if forall|k: int| 0 <= k < p.len() ==> b[i + k] == #[trigger] p[k] {
            assert(part =~= p);
        }
        if part == p {
            assert forall|k: int| 0 <= k < p.len() implies b[i + k] == #[trigger] p[k] by {
                assert(part[k] == p[k]);
            }
        }
    }
}

} // verus!
