//! The table of edge midpoints shared by the subdivision and higher-order
//! conversions: every undirected edge gets its midpoint vertex once, in the
//! order in which the edges are first met.
use std::collections::HashMap;
use vstd::prelude::*;

verus! {

broadcast use vstd::std_specs::hash::group_hash_axioms;

/// An undirected edge, smaller vertex index first.
pub open spec fn edge_key(a: u32, b: u32) -> (u32, u32) {
    if a < b {
        (a, b)
    } else {
        (b, a)
    }
}

/// The distinct keys of `s`, each with the payload of its first occurrence,
/// in order of first occurrence.
pub open spec fn dedup_keys<K, S>(s: Seq<(K, S)>) -> Seq<(K, S)>
    decreases s.len(),
{
    if s.len() == 0 {
        seq![]
    } else {
        let d = dedup_keys(s.drop_last());
        if keys_of(d).contains(s.last().0) {
            d
        } else {
            d.push(s.last())
        }
    }
}

/// The keys of a keyed sequence.
pub open spec fn keys_of<K, S>(s: Seq<(K, S)>) -> Seq<K> {
    s.map_values(|p: (K, S)| p.0)
}

/// The payloads of a keyed sequence.
pub open spec fn payloads_of<K, S>(s: Seq<(K, S)>) -> Seq<S> {
    s.map_values(|p: (K, S)| p.1)
}

/// Index of the midpoint vertex of edge `k` in a table whose first midpoint
/// is vertex `base`.
pub open spec fn midpoint_index(edges: Seq<(u32, u32)>, base: int, k: (u32, u32)) -> u32 {
    (base + edges.index_of(k)) as u32
}

/// The midpoint of `a`-`b` in the table.
pub open spec fn mid(edges: Seq<(u32, u32)>, base: int, a: u32, b: u32) -> u32 {
    midpoint_index(edges, base, edge_key(a, b))
}

pub open spec fn key_code(k: (u32, u32)) -> u64 {
    ((k.0 as u64) << 32u64) | (k.1 as u64)
}

proof fn lemma_key_code_injective(k1: (u32, u32), k2: (u32, u32))
    ensures
        key_code(k1) == key_code(k2) ==> k1 == k2,
{
    let (a, b) = k1;
    let (c, d) = k2;
    assert(((a as u64) << 32u64) | (b as u64) == ((c as u64) << 32u64) | (d as u64) ==> a == c
        && b == d) by (bit_vector);
}

/// Facts about `dedup_keys`: no key twice, the same keys as the input, and
/// stable positions when the input grows.
pub proof fn lemma_dedup_keys<K, S>(s: Seq<(K, S)>)
    ensures
        dedup_keys(s).len() <= s.len(),
        keys_of(dedup_keys(s)).no_duplicates(),
        forall|k: K| #[trigger]
            keys_of(dedup_keys(s)).contains(k) <==> keys_of(s).contains(k),
    decreases s.len(),
{
    if s.len() == 0 {
        assert(keys_of(dedup_keys(s)) =~= Seq::<K>::empty());
        assert(keys_of(s) =~= Seq::<K>::empty());
    } else {
        lemma_dedup_keys(s.drop_last());
        let d = dedup_keys(s.drop_last());
        assert(keys_of(s) =~= keys_of(s.drop_last()).push(s.last().0));
        if !keys_of(d).contains(s.last().0) {
            assert(keys_of(d.push(s.last())) =~= keys_of(d).push(s.last().0));
        }
        let dd = dedup_keys(s);
        assert(keys_of(dd) =~= if keys_of(d).contains(s.last().0) {
            keys_of(d)
        } else {
            keys_of(d).push(s.last().0)
        });
        assert forall|k: K| #[trigger]
            keys_of(dedup_keys(s)).contains(k) <==> keys_of(s).contains(k) by {
            let ks = keys_of(s);
            let kp = keys_of(s.drop_last());
            if ks.contains(k) {
                let i = choose|i: int| 0 <= i < ks.len() && ks[i] == k;
                if i < s.len() - 1 {
                    assert(kp[i] == k);
                    assert(kp.contains(k));
                    assert(keys_of(d).contains(k));
                    let j = choose|j: int| 0 <= j < keys_of(d).len() && keys_of(d)[j] == k;
                    assert(keys_of(dd)[j] == k);
                } else {
                    assert(k == s.last().0);
                    if keys_of(d).contains(k) {
                    } else {
                        assert(keys_of(dd)[keys_of(d).len() as int] == k);
                    }
                }
            }
            if keys_of(dd).contains(k) {
                let j = choose|j: int| 0 <= j < keys_of(dd).len() && keys_of(dd)[j] == k;
                if j < keys_of(d).len() {
                    assert(keys_of(d)[j] == k);
                    assert(keys_of(d).contains(k));
                    assert(kp.contains(k));
                    let i = choose|i: int| 0 <= i < kp.len() && kp[i] == k;
                    assert(ks[i] == k);
                } else {
                    assert(k == s.last().0);
                    assert(ks[s.len() - 1] == k);
                }
            }
        }
    }
}

/// One more request: its key is added when new, with its payload.
pub proof fn lemma_dedup_keys_push<K, S>(s: Seq<(K, S)>, r: (K, S))
    ensures
        dedup_keys(s.push(r)) == if keys_of(dedup_keys(s)).contains(r.0) {
            dedup_keys(s)
        } else {
            dedup_keys(s).push(r)
        },
        keys_of(dedup_keys(s).push(r)) == keys_of(dedup_keys(s)).push(r.0),
        payloads_of(dedup_keys(s).push(r)) == payloads_of(dedup_keys(s)).push(r.1),
{
    assert(s.push(r).drop_last() =~= s);
    assert(keys_of(dedup_keys(s).push(r)) =~= keys_of(dedup_keys(s)).push(r.0));
    assert(payloads_of(dedup_keys(s).push(r)) =~= payloads_of(dedup_keys(s)).push(r.1));
}

/// Appending requests: dedup of `s + t` starts with dedup of `s`.
pub proof fn lemma_dedup_keys_prefix<K, S>(s: Seq<(K, S)>, t: Seq<(K, S)>)
    ensures
        dedup_keys(s + t).len() >= dedup_keys(s).len(),
        dedup_keys(s + t).subrange(0, dedup_keys(s).len() as int) == dedup_keys(s),
    decreases t.len(),
{
    if t.len() == 0 {
        assert(s + t =~= s);
        assert(dedup_keys(s).subrange(0, dedup_keys(s).len() as int) =~= dedup_keys(s));
    } else {
        lemma_dedup_keys_prefix(s, t.drop_last());
        assert((s + t).drop_last() =~= s + t.drop_last());
        let d = dedup_keys(s + t.drop_last());
        assert(d.push((s + t).last()).subrange(0, dedup_keys(s).len() as int) =~= d.subrange(
            0,
            dedup_keys(s).len() as int,
        ));
    }
}

/// In a sequence without duplicates, `index_of` finds the position.
pub proof fn lemma_index_of_unique<K>(s: Seq<K>, i: int)
    requires
        s.no_duplicates(),
        0 <= i < s.len(),
    ensures
        s.index_of(s[i]) == i,
{
    assert(s.contains(s[i]));
}

/// Positions of keys already in a table do not move when the table grows.
pub proof fn lemma_index_of_extend<K>(s: Seq<K>, t: Seq<K>, k: K)
    requires
        t.no_duplicates(),
        s.len() <= t.len(),
        t.subrange(0, s.len() as int) == s,
        s.contains(k),
    ensures
        t.index_of(k) == s.index_of(k),
        0 <= s.index_of(k) < s.len(),
{
    let i = choose|i: int| 0 <= i < s.len() && s[i] == k;
    assert(t[i] == s[i]);
    assert(s.no_duplicates()) by {
        assert forall|a: int, b: int| 0 <= a < s.len() && 0 <= b < s.len() && a != b implies s[a]
            != s[b] by {
            assert(t[a] == s[a] && t[b] == s[b]);
        }
    }
    lemma_index_of_unique(t, i);
    lemma_index_of_unique(s, i);
}

/// Looking an edge up again, in either direction, finds the midpoint made
/// the first time: an edge's key does not depend on the order of its
/// endpoints, so once `get_or_create(v0, v1)` has put the edge in the table,
/// `get_or_create(v1, v0)` finds it, creates nothing and returns the same
/// vertex.
pub proof fn law_midpoint_lookup_is_stable(edges: Seq<(u32, u32)>, base: int, v0: u32, v1: u32)
    requires
        edges.contains(edge_key(v0, v1)),
    ensures
        edge_key(v1, v0) == edge_key(v0, v1),
        edges.contains(edge_key(v1, v0)),
        mid(edges, base, v1, v0) == mid(edges, base, v0, v1),
{
}

/// The midpoint table: edge `edges[i]` has midpoint vertex `base + i`.
pub struct EdgeMidpoints {
    map: HashMap<u64, u32>,
    edges: Vec<(u32, u32)>,
    base: u32,
}

impl EdgeMidpoints {
    /// The edges that have a midpoint, in creation order.
    pub closed spec fn edges(&self) -> Seq<(u32, u32)> {
        self.edges@
    }

    /// The index of the first midpoint vertex.
    pub closed spec fn base(&self) -> int {
        self.base as int
    }

    /// The table is consistent.
    pub closed spec fn wf(&self) -> bool {
        &&& self.edges@.no_duplicates()
        &&& self.base + self.edges@.len() <= u32::MAX + 1
        &&& forall|c: u64| #[trigger]
            self.map@.contains_key(c) <==> exists|i: int|
                0 <= i < self.edges@.len() && key_code(self.edges@[i]) == c
        &&& forall|i: int|
            0 <= i < self.edges@.len() ==> self.map@[#[trigger] key_code(self.edges@[i])]
                == self.base + i
        &&& forall|i: int|
            0 <= i < self.edges@.len() ==> (#[trigger] self.edges@[i]).0 <= self.edges@[i].1
    }

    /// An empty table whose first midpoint will be vertex `base`.
    pub fn new(base: u32) -> (table: Self)
        ensures
            table.wf(),
            table.edges() == Seq::<(u32, u32)>::empty(),
            table.base() == base,
    {
        EdgeMidpoints { map: HashMap::new(), edges: Vec::new(), base }
    }

    /// Returns the midpoint vertex of edge `v0`-`v1`, creating it (as the
    /// next vertex index) when the edge has none yet.
    pub fn get_or_create(&mut self, v0: u32, v1: u32) -> (res: (u32, bool))
        requires
            old(self).wf(),
            old(self).base() + old(self).edges().len() <= u32::MAX,
        ensures
            final(self).wf(),
            final(self).edges().no_duplicates(),
            final(self).base() == old(self).base(),
            res.1 == !old(self).edges().contains(edge_key(v0, v1)),
            final(self).edges() == if res.1 {
                old(self).edges().push(edge_key(v0, v1))
            } else {
                old(self).edges()
            },
            final(self).edges().contains(edge_key(v0, v1)),
            res.0 == mid(final(self).edges(), final(self).base(), v0, v1),
            res.0 == final(self).base() + final(self).edges().index_of(edge_key(v0, v1)),
    {
        let ghost k = edge_key(v0, v1);
        let (a, b) = if v0 < v1 {
            (v0, v1)
        } else {
            (v1, v0)
        };
        let code: u64 = ((a as u64) << 32u64) | (b as u64);
        assert(code == key_code(k));
        match self.map.get(&code) {
            Some(idx) => {
                let idx = *idx;
                let ghost i = choose|i: int|
                    0 <= i < self.edges@.len() && key_code(self.edges@[i]) == code;
                proof {
                    lemma_key_code_injective(self.edges@[i], k);
                    lemma_index_of_unique(self.edges@, i);
                }
                (idx, false)
            },
            None => {
                assert(!self.edges@.contains(k)) by {
                    if self.edges@.contains(k) {
                        let i = choose|i: int| 0 <= i < self.edges@.len() && self.edges@[i] == k;
                        assert(key_code(self.edges@[i]) == code);
                    }
                };
                let idx = self.base + self.edges.len() as u32;
                let ghost old_edges = self.edges@;
                self.map.insert(code, idx);
                self.edges.push((a, b));
                proof {
                    assert(self.edges@[old_edges.len() as int] == k);
                    assert forall|x: int, y: int|
                        0 <= x < self.edges@.len() && 0 <= y < self.edges@.len() && x != y implies
                        self.edges@[x] != self.edges@[y] by {
                        if x < old_edges.len() && y < old_edges.len() {
                            assert(old_edges[x] != old_edges[y]);
                        } else if x < old_edges.len() {
                            assert(old_edges.contains(old_edges[x]));
                        } else {
                            assert(old_edges.contains(old_edges[y]));
                        }
                    }
                    assert forall|c: u64| #[trigger]
                        self.map@.contains_key(c) <==> exists|i: int|
                            0 <= i < self.edges@.len() && key_code(self.edges@[i]) == c by {
                        if self.map@.contains_key(c) && c != code {
                            let i = choose|i: int|
                                0 <= i < old_edges.len() && key_code(old_edges[i]) == c;
                            assert(self.edges@[i] == old_edges[i]);
                        }
                        if c == code {
                            assert(key_code(self.edges@[old_edges.len() as int]) == c);
                        }
                        if exists|i: int|
                            0 <= i < self.edges@.len() && key_code(self.edges@[i]) == c {
                            let i = choose|i: int|
                                0 <= i < self.edges@.len() && key_code(self.edges@[i]) == c;
                            if i < old_edges.len() {
                                assert(old_edges[i] == self.edges@[i]);
                            }
                        }
                    }
                    assert forall|i: int| 0 <= i < self.edges@.len() implies self.map@[
                        #[trigger] key_code(self.edges@[i])] == self.base + i by {
                        if i < old_edges.len() {
                            assert(old_edges[i] == self.edges@[i]);
                            if key_code(old_edges[i]) == code {
                                lemma_key_code_injective(old_edges[i], k);
                                assert(old_edges.contains(k));
                            }
                        }
                    }
                    lemma_index_of_unique(self.edges@, old_edges.len() as int);
                }
                (idx, true)
            },
        }
    }

    /// Gives up the table, returning its edges in creation order.
    pub fn into_edges(self) -> (edges: Vec<(u32, u32)>)
        ensures
            edges@ == self.edges(),
    {
        self.edges
    }
}

} // verus!
