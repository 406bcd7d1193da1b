//! A prefix index over paths.
//!
//! Entries are kept by logical path: two spellings with the same
//! components are the same key. A query is answered with the longest
//! stored path whose components start the query's components, so a stored
//! path never matches in the middle of a component.

use crate::path::model::{components_of, Segment};
use crate::path::owned::{
    canonical, lemma_canonical_idempotent, lemma_components_valid, lemma_spelled_is_injective,
    lemma_spelled_round_trip, marks_prefixes, spelled, valid_at, valid_components,
};
use crate::path::{PathBuf, PathOwned, PathStr};
use vstd::prelude::*;
use vstd::slice::slice_subrange;

verus! {

/// `qp_trie::Trie`: a radix trie keyed by bytes. Nothing inside it is
/// visible here; what it holds is told by `trie_entries`.
#[verifier::external_type_specification]
#[verifier::external_body]
#[verifier::reject_recursive_types(K)]
#[verifier::reject_recursive_types(V)]
pub struct ExTrie<K, V>(qp_trie::Trie<K, V>);

/// The underlying trie: from the bytes of a canonical spelling to a slot.
pub type ByteTrie = qp_trie::Trie<Vec<u8>, usize>;

/// What a byte-keyed trie holds: the value stored under each key.
pub uninterp spec fn trie_entries(t: qp_trie::Trie<Vec<u8>, usize>) -> Map<Seq<u8>, usize>;

/// `qp_trie::Trie::new`: a trie that holds nothing.
#[verifier::external_body]
fn trie_new() -> (r: ByteTrie)
    ensures
        trie_entries(r).dom() == Set::<Seq<u8>>::empty(),
{
    qp_trie::Trie::new()
}

/// `qp_trie::Trie::insert`: stores `val` under `key` and hands back the
/// value that was stored under exactly these bytes before, if any.
#[verifier::external_body]
fn trie_insert(t: &mut ByteTrie, key: Vec<u8>, val: usize) -> (r: Option<usize>)
    ensures
        trie_entries(*final(t)) == trie_entries(*old(t)).insert(key@, val),
        r == (if trie_entries(*old(t)).contains_key(key@) {
            Some(trie_entries(*old(t))[key@])
        } else {
            None
        }),
{
    t.insert(key, val)
}

/// `qp_trie::Trie::get`: the value stored under exactly these bytes, if
/// any.
#[verifier::external_body]
fn trie_get(t: &ByteTrie, key: &[u8]) -> (r: Option<usize>)
    ensures
        r == (if trie_entries(*t).contains_key(key@) {
            Some(trie_entries(*t)[key@])
        } else {
            None
        }),
{
    t.get(key).copied()
}

/// A map from paths to values that finds the longest stored path in front
/// of a query.
#[derive(Debug)]
pub struct PathTrie<K: PathOwned, V> {
    // canonical key bytes -> slot in `entries`
    index: ByteTrie,
    // the stored paths, canonically spelled, with their values
    entries: Vec<(K, V)>,
}

impl<K: PathOwned, V> PathTrie<K, V> {
    /// The stored paths with their values, in slot order.
    pub closed spec fn slots(&self) -> Seq<(K, V)> {
        self.entries@
    }

    /// The slot that each key of the underlying trie points to.
    pub closed spec fn index_map(&self) -> Map<Seq<u8>, usize> {
        trie_entries(self.index)
    }

    /// The bytes under which a component sequence is stored.
    pub open spec fn key_of(cs: Seq<Segment<<K::Str as PathStr>::ComponentType>>) -> Seq<u8> {
        <K::Str as PathStr>::key_bytes(spelled::<K::Str>(cs))
    }

    /// Every stored path is canonically spelled and found under its own
    /// bytes, and every key points to the slot of its path.
    pub open spec fn wf(&self) -> bool {
        &&& forall|i: int|
            0 <= i < self.slots().len() ==> {
                let u = (#[trigger] self.slots()[i]).0.units();
                &&& canonical::<K::Str>(u) == u
                &&& self.index_map().contains_key(<K::Str as PathStr>::key_bytes(u))
                &&& self.index_map()[<K::Str as PathStr>::key_bytes(u)] == i
            }
        &&& forall|b: Seq<u8>| #[trigger]
            self.index_map().contains_key(b) ==> {
                &&& self.index_map()[b] < self.slots().len()
                &&& <K::Str as PathStr>::key_bytes(
                    self.slots()[self.index_map()[b] as int].0.units(),
                ) == b
            }
    }

    /// The index as a map from component sequences to values.
    pub open spec fn view(&self) -> Map<Seq<Segment<<K::Str as PathStr>::ComponentType>>, V> {
        Map::new(
            |cs: Seq<Segment<<K::Str as PathStr>::ComponentType>>|
                valid_components::<K::Str>(cs) && self.index_map().contains_key(Self::key_of(cs)),
            |cs: Seq<Segment<<K::Str as PathStr>::ComponentType>>|
                self.slots()[self.index_map()[Self::key_of(cs)] as int].1,
        )
    }

    /// An index that holds nothing.
    pub fn new() -> (r: Self)
        ensures
            r.wf(),
            r@ == Map::<Seq<Segment<<K::Str as PathStr>::ComponentType>>, V>::empty(),
    {
        let r = PathTrie { index: trie_new(), entries: Vec::new() };
        assert(r@ =~= Map::<Seq<Segment<<K::Str as PathStr>::ComponentType>>, V>::empty());
        r
    }

    // A valid component sequence other than `cs` is stored under other bytes.
    proof fn lemma_key_of_is_injective(
        a: Seq<Segment<<K::Str as PathStr>::ComponentType>>,
        b: Seq<Segment<<K::Str as PathStr>::ComponentType>>,
    )
        requires
            valid_components::<K::Str>(a),
            valid_components::<K::Str>(b),
            Self::key_of(a) == Self::key_of(b),
        ensures
            a == b,
    {
        <K::Str as PathStr>::key_bytes_is_injective(spelled::<K::Str>(a), spelled::<K::Str>(b));
        lemma_spelled_is_injective::<K::Str>(a, b);
    }

    /// Stores `value` under the logical path of `path` and hands back the
    /// value that was stored under a path with the same components
    /// before, if any.
    pub fn insert(&mut self, path: K, value: V) -> (r: Option<V>)
        requires
            old(self).wf(),
        ensures
            final(self).wf(),
            final(self)@ == old(self)@.insert(components_of::<K::Str>(path.units()), value),
            r == (if old(self)@.contains_key(components_of::<K::Str>(path.units())) {
                Some(old(self)@[components_of::<K::Str>(path.units())])
            } else {
                None
            }),
    {
        let ghost cs = components_of::<K::Str>(path.units());
        let (canon, _) = path.canonical();
        let stored = K::from_units(<K::Str as PathStr>::from_slice(canon.as_slice()));
        let key = stored.as_str().to_key();
        proof {
            lemma_components_valid::<K::Str>(path.units());
            lemma_canonical_idempotent::<K::Str>(path.units());
            assert(key@ == Self::key_of(cs));
            assert forall|c2: Seq<Segment<<K::Str as PathStr>::ComponentType>>|
                valid_components::<K::Str>(c2) && Self::key_of(c2) == key@ implies c2 == cs by {
                Self::lemma_key_of_is_injective(c2, cs);
            }
        }
        match trie_get(&self.index, key.as_slice()) {
            Some(i) => {
                proof {
                    assert(self.index_map().contains_key(key@));
                    assert(i < self.slots().len());
                    <K::Str as PathStr>::key_bytes_is_injective(
                        self.entries@[i as int].0.units(),
                        stored.units(),
                    );
                }
                self.entries.push((stored, value));
                let old_entry = self.entries.swap_remove(i);
                assert(self.entries@ =~= old(self).entries@.update(i as int, (stored, value)));
                assert forall|j: int| 0 <= j < self.slots().len() implies {
                    let u = (#[trigger] self.slots()[j]).0.units();
                    &&& canonical::<K::Str>(u) == u
                    &&& self.index_map().contains_key(<K::Str as PathStr>::key_bytes(u))
                    &&& self.index_map()[<K::Str as PathStr>::key_bytes(u)] == j
                } by {
                    if j != i {
                        assert(self.slots()[j] == old(self).slots()[j]);
                    }
                }
                assert forall|b: Seq<u8>| #[trigger]
                    self.index_map().contains_key(b) implies {
                    &&& self.index_map()[b] < self.slots().len()
                    &&& <K::Str as PathStr>::key_bytes(
                        self.slots()[self.index_map()[b] as int].0.units(),
                    ) == b
                } by {
                    assert(old(self).index_map().contains_key(b));
                }
                assert(self@ =~= old(self)@.insert(cs, value)) by {
                    assert forall|c2: Seq<Segment<<K::Str as PathStr>::ComponentType>>|
                        self@.contains_key(c2) && c2 != cs implies self@[c2] == old(self)@[c2] by {
                        assert(old(self).index_map().contains_key(Self::key_of(c2)));
                    }
                }
                Some(old_entry.1)
            },
            None => {
                let i = self.entries.len();
                let _ = trie_insert(&mut self.index, key, i);
                self.entries.push((stored, value));
                assert forall|j: int| 0 <= j < self.slots().len() implies {
                    let u = (#[trigger] self.slots()[j]).0.units();
                    &&& canonical::<K::Str>(u) == u
                    &&& self.index_map().contains_key(<K::Str as PathStr>::key_bytes(u))
                    &&& self.index_map()[<K::Str as PathStr>::key_bytes(u)] == j
                } by {
                    if j < i {
                        assert(self.slots()[j] == old(self).slots()[j]);
                    }
                }
                assert forall|b: Seq<u8>| #[trigger]
                    self.index_map().contains_key(b) implies {
                    &&& self.index_map()[b] < self.slots().len()
                    &&& <K::Str as PathStr>::key_bytes(
                        self.slots()[self.index_map()[b] as int].0.units(),
                    ) == b
                } by {
                    if b != key@ {
                        assert(old(self).index_map().contains_key(b));
                    }
                }
                assert(self@ =~= old(self)@.insert(cs, value)) by {
                    assert forall|c2: Seq<Segment<<K::Str as PathStr>::ComponentType>>|
                        self@.contains_key(c2) && c2 != cs implies old(self)@.contains_key(c2)
                        && self@[c2] == old(self)@[c2] by {
                        assert(old(self).index_map().contains_key(Self::key_of(c2)));
                    }
                }
                None
            },
        }
    }

    /// The longest stored path whose components are the first components
    /// of `path`, or `None` where no stored path is.
    pub fn longest_prefix(&self, path: K) -> (r: Option<&K>)
        requires
            self.wf(),
        ensures
            match r {
                Some(p) => {
                    let cs = components_of::<K::Str>(path.units());
                    let m = components_of::<K::Str>(p.units());
                    &&& m.len() <= cs.len()
                    &&& m == cs.subrange(0, m.len() as int)
                    &&& self@.contains_key(m)
                    &&& p.units() == spelled::<K::Str>(m)
                    &&& forall|j: int|
                        m.len() < j <= cs.len() ==> !self@.contains_key(
                            #[trigger] cs.subrange(0, j),
                        )
                },
                None => forall|j: int|
                    0 <= j <= components_of::<K::Str>(path.units()).len() ==> !self@.contains_key(
                        #[trigger] components_of::<K::Str>(path.units()).subrange(0, j),
                    ),
            },
    {
        let ghost cs = components_of::<K::Str>(path.units());
        let (canon, ends) = path.canonical();
        proof {
            lemma_components_valid::<K::Str>(path.units());
        }
        let mut k: usize = ends.len();
        while k > 0
            invariant
                self.wf(),
                cs == components_of::<K::Str>(path.units()),
                valid_components::<K::Str>(cs),
                marks_prefixes::<K::Str>(cs, canon@, ends@),
                k <= ends@.len(),
                forall|j: int|
                    k <= j <= cs.len() ==> !self@.contains_key(#[trigger] cs.subrange(0, j)),
            decreases k,
        {
            k -= 1;
            let end = ends[k];
            let prefix = slice_subrange(canon.as_slice(), 0, end);
            let key = <K::Str as PathStr>::from_slice(prefix).to_key();
            let ghost head = cs.subrange(0, k as int);
            proof {
                assert(key@ == Self::key_of(head));
                assert forall|i: int| 0 <= i < head.len() implies valid_at::<K::Str>(
                    #[trigger] head[i],
                    i,
                ) by {
                    assert(head[i] == cs[i]);
                }
            }
            match trie_get(&self.index, key.as_slice()) {
                Some(i) => {
                    proof {
                        assert(self.index_map().contains_key(key@));
                        assert(i < self.slots().len());
                        let u = self.slots()[i as int].0.units();
                        <K::Str as PathStr>::key_bytes_is_injective(u, spelled::<K::Str>(head));
                        lemma_spelled_round_trip::<K::Str>(head);
                    }
                    return Some(&self.entries[i].0);
                },
                None => {},
            }
        }
        None
    }
}

} // verus!
