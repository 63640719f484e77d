use vstd::prelude::*;

use crate::object::{HashKey, Object};

verus! {

/// A function as the compiler leaves it: its code, the number of local slots
/// it reserves and how many of them are parameters.
#[derive(Debug)]
pub struct CompiledFunction {
    pub instructions: Vec<u8>,
    pub num_locals: usize,
    pub num_parameters: usize,
}

/// A compiled function (a slot of the heap's functions) with the values it
/// captured, in capture order.
#[derive(Debug)]
pub struct Closure {
    pub function: usize,
    pub free: Vec<Object>,
}

/// The entries of a hash: key and value pairs, no key twice.
pub open spec fn keys_unique(s: Seq<(HashKey, Object)>) -> bool {
    forall|i: int, j: int| 0 <= i < j < s.len() ==> #[trigger] s[i].0 != #[trigger] s[j].0
}

/// The value that the entries map `k` to.
pub open spec fn lookup(s: Seq<(HashKey, Object)>, k: HashKey) -> Option<Object> {
    if exists|i: int| 0 <= i < s.len() && s[i].0 == k {
        Some(s[choose|i: int| 0 <= i < s.len() && s[i].0 == k].1)
    } else {
        None
    }
}

proof fn lemma_lookup_at(s: Seq<(HashKey, Object)>, i: int)
    requires
        keys_unique(s),
        0 <= i < s.len(),
    ensures
        lookup(s, s[i].0) == Some(s[i].1),
{
    let c = choose|j: int| 0 <= j < s.len() && s[j].0 == s[i].0;
    if c != i {
        if c < i {
            assert(s[c].0 != s[i].0);
        } else {
            assert(s[i].0 != s[c].0);
        }
    }
}

/// Looks `k` up in the entries of a hash.
pub fn entries_get(entries: &Vec<(HashKey, Object)>, k: HashKey) -> (r: Option<Object>)
    requires
        keys_unique(entries@),
    ensures
        r == lookup(entries@, k),
{
    let mut i: usize = 0;
    while i < entries.len()
        invariant
            keys_unique(entries@),
            i <= entries@.len(),
            forall|j: int| 0 <= j < i ==> entries@[j].0 != k,
        decreases entries@.len() - i,
    {
        if entries[i].0 == k {
            proof {
                lemma_lookup_at(entries@, i as int);
            }
            return Some(entries[i].1);
        }
        i = i + 1;
    }
    None
}

/// Maps `k` to `v`: the entry of `k` is overwritten, or a new one added.
pub fn entries_insert(entries: &mut Vec<(HashKey, Object)>, k: HashKey, v: Object)
    requires
        keys_unique(old(entries)@),
    ensures
        keys_unique(final(entries)@),
        forall|q: HashKey|
            #[trigger] lookup(final(entries)@, q) == if q == k {
                Some(v)
            } else {
                lookup(old(entries)@, q)
            },
{
    let ghost s0 = entries@;
    let mut i: usize = 0;
    while i < entries.len() && entries[i].0 != k
        invariant
            entries@ == s0,
            keys_unique(s0),
            i <= s0.len(),
            forall|j: int| 0 <= j < i ==> s0[j].0 != k,
        decreases s0.len() - i,
    {
        i = i + 1;
    }
    if i < entries.len() {
        entries.set(i, (k, v));
    } else {
        entries.push((k, v));
    }
    proof {
        let s1 = entries@;
        assert(keys_unique(s1));
        lemma_lookup_at(s1, i as int);
        assert forall|q: HashKey| #[trigger] lookup(s1, q) == if q == k {
            Some(v)
        } else {
            lookup(s0, q)
        } by {
            if q != k {
                if exists|j: int| 0 <= j < s0.len() && s0[j].0 == q {
                    let j = choose|j: int| 0 <= j < s0.len() && s0[j].0 == q;
                    lemma_lookup_at(s0, j);
                    lemma_lookup_at(s1, j);
                } else {
                    assert(!exists|j: int| 0 <= j < s1.len() && s1[j].0 == q);
                }
            }
        }
    }
}

/// What a run of key and value pairs maps `k` to, the last pair of a key
/// winning.
pub open spec fn pairs_lookup(kvs: Seq<(HashKey, Object)>, k: HashKey) -> Option<Object>
    decreases kvs.len(),
{
    if kvs.len() == 0 {
        None
    } else if kvs.last().0 == k {
        Some(kvs.last().1)
    } else {
        pairs_lookup(kvs.drop_last(), k)
    }
}

proof fn lemma_pairs_lookup_member(kvs: Seq<(HashKey, Object)>, k: HashKey, v: Object)
    requires
        keys_unique(kvs),
    ensures
        pairs_lookup(kvs, k) == Some(v) <==> kvs.contains((k, v)),
        pairs_lookup(kvs, k) is None <==> (forall|i: int| 0 <= i < kvs.len() ==> kvs[i].0 != k),
    decreases kvs.len(),
{
    if kvs.len() > 0 {
        let init = kvs.drop_last();
        assert(keys_unique(init));
        lemma_pairs_lookup_member(init, k, v);
        let n = kvs.len() - 1;
        if kvs.last().0 == k {
            if kvs.contains((k, v)) {
                let i = choose|i: int| 0 <= i < kvs.len() && kvs[i] == (k, v);
                if i < n {
                    assert(kvs[i].0 != kvs[n].0);
                }
            }
        } else {
            if kvs.contains((k, v)) {
                let i = choose|i: int| 0 <= i < kvs.len() && kvs[i] == (k, v);
                assert(init[i] == (k, v));
            }
            if init.contains((k, v)) {
                let i = choose|i: int| 0 <= i < init.len() && init[i] == (k, v);
                assert(kvs[i] == (k, v));
            }
            assert forall|i: int| 0 <= i < init.len() implies init[i] == kvs[i] by {}
        }
    }
}

/// Two runs of pairs with unique keys that hold the same pairs, in whatever
/// order, map every key alike.
pub proof fn lemma_order_irrelevant(a: Seq<(HashKey, Object)>, b: Seq<(HashKey, Object)>)
    requires
        keys_unique(a),
        keys_unique(b),
        a.to_set() == b.to_set(),
    ensures
        forall|k: HashKey| #[trigger] pairs_lookup(a, k) == pairs_lookup(b, k),
{
    assert forall|k: HashKey| #[trigger] pairs_lookup(a, k) == pairs_lookup(b, k) by {
        match pairs_lookup(a, k) {
            Some(v) => {
                lemma_pairs_lookup_member(a, k, v);
                lemma_pairs_lookup_member(b, k, v);
                assert(a.to_set().contains((k, v)));
                assert(b.to_set().contains((k, v)));
            },
            None => {
                match pairs_lookup(b, k) {
                    Some(v) => {
                        lemma_pairs_lookup_member(a, k, v);
                        lemma_pairs_lookup_member(b, k, v);
                        assert(b.to_set().contains((k, v)));
                        assert(a.to_set().contains((k, v)));
                    },
                    None => {},
                }
            },
        }
    }
}

} // verus!
