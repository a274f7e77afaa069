//! The time-range summary store: two ordered partitions of an embedded
//! key/value engine, written one command at a time, scanned inclusively,
//! purged wholesale.
//!
//! The engine is sled; its trees stand behind trusted wrappers whose
//! contracts speak of `tree_entries`, the map a tree holds. Everything on
//! top of the wrappers — writing an amount's eight big-endian bytes,
//! counting and decoding a range, purging — is verified.

use vstd::prelude::*;
use vstd::seq_lib::*;
use vstd::string::*;

use crate::bytes::{be_bytes_of, be_to_u64, lex_le, lex_lt, spec_be_bytes, spec_be_to_u64};
use crate::types::SledTree;

verus! {

#[verifier::external_type_specification]
#[verifier::external_body]
pub struct ExTree(sled::Tree);

#[verifier::external_type_specification]
#[verifier::external_body]
pub struct ExSledError(sled::Error);

/// The map a tree holds: each key's current value, as byte strings.
pub uninterp spec fn tree_entries(t: sled::Tree) -> Map<Seq<u8>, Seq<u8>>;

/// A partition with nothing in it.
pub open spec fn empty_entries() -> Map<Seq<u8>, Seq<u8>> {
    Map::empty()
}

/// Relies on sled::Tree::insert: sets the key to the value, replacing any
/// prior value.
#[verifier::external_body]
fn tree_insert(t: &mut sled::Tree, key: &[u8], val: &[u8]) -> (r: Result<(), sled::Error>)
    ensures
        r is Ok ==> tree_entries(*final(t)) == tree_entries(*old(t)).insert(key@, val@),
{
    match t.insert(key, val) {
        Ok(_) => Ok(()),
        Err(e) => Err(e),
    }
}

/// Relies on sled::Tree::range over `from..=to` and Iter::next: the pairs
/// whose keys lie in the inclusive range, in ascending key order, each key
/// once; an iteration error ends the scan. Keys and values are returned in
/// two vectors of equal length.
#[verifier::external_body]
fn tree_scan(t: &sled::Tree, from: &[u8], to: &[u8]) -> (r: Result<
    (Vec<Vec<u8>>, Vec<Vec<u8>>),
    sled::Error,
>)
    ensures
        r matches Ok(kv) ==> {
            &&& kv.0@.len() == kv.1@.len()
            &&& forall|i: int|
                #![trigger kv.0@[i]]
                0 <= i < kv.0@.len() ==> tree_entries(*t).contains_pair(kv.0@[i]@, kv.1@[i]@)
                    && lex_le(from@, kv.0@[i]@) && lex_le(kv.0@[i]@, to@)
            &&& forall|i: int, j: int|
                #![trigger kv.0@[i], kv.0@[j]]
                0 <= i < j < kv.0@.len() ==> lex_lt(kv.0@[i]@, kv.0@[j]@)
            &&& forall|kk: Seq<u8>|
                #![trigger tree_entries(*t).dom().contains(kk)]
                tree_entries(*t).dom().contains(kk) && lex_le(from@, kk) && lex_le(kk, to@)
                    ==> exists|i: int| 0 <= i < kv.0@.len() && #[trigger] kv.0@[i]@ == kk
        },
{
    let mut keys = Vec::new();
    let mut vals = Vec::new();
    for item in t.range(from..=to) {
        match item {
            Ok((k, v)) => {
                keys.push(k.to_vec());
                vals.push(v.to_vec());
            },
            Err(e) => return Err(e),
        }
    }
    Ok((keys, vals))
}

/// Relies on sled::Tree::clear: removes every key.
#[verifier::external_body]
fn tree_clear(t: &mut sled::Tree) -> (r: Result<(), sled::Error>)
    ensures
        r is Ok ==> tree_entries(*final(t)) == empty_entries(),
{
    t.clear()
}

/// Relies on sled::Tree::flush: syncs to disk; the tree's contents do not
/// change either way.
#[verifier::external_body]
fn tree_flush(t: &mut sled::Tree) -> (r: Result<usize, sled::Error>)
    ensures
        r is Ok ==> tree_entries(*final(t)) == tree_entries(*old(t)),
        r is Err ==> tree_entries(*final(t)) == tree_entries(*old(t)),
{
    t.flush()
}

/// The store's own error kinds.
#[derive(Debug, Clone, Copy, PartialEq, Eq, Structural)]
pub enum StoreError {
    /// The engine reported a failure.
    Engine,
    /// A stored value was not eight bytes long.
    CorruptValue,
}

/// A key lies in the inclusive range.
pub open spec fn in_range(k: Seq<u8>, from: Seq<u8>, to: Seq<u8>) -> bool {
    lex_le(from, k) && lex_le(k, to)
}

/// The keys of `m` that lie in the inclusive range.
pub open spec fn range_keys(m: Map<Seq<u8>, Seq<u8>>, from: Seq<u8>, to: Seq<u8>) -> Set<Seq<u8>> {
    m.dom().filter(|k: Seq<u8>| in_range(k, from, to))
}

/// One partition's scan result: the matching keys in ascending order and
/// the 64-bit value read from each key's eight stored bytes.
pub struct SummaryData {
    pub count: u64,
    pub keys: Vec<Vec<u8>>,
    pub amounts: Vec<u64>,
}

/// `sd` is exactly the summary of `m` over the inclusive range: its count
/// is the number of keys in range, its keys are those keys in ascending
/// order, and its amounts decode their eight-byte values.
pub open spec fn summary_matches(
    m: Map<Seq<u8>, Seq<u8>>,
    from: Seq<u8>,
    to: Seq<u8>,
    sd: SummaryData,
) -> bool {
    &&& range_keys(m, from, to).finite()
    &&& sd.count == range_keys(m, from, to).len()
    &&& sd.keys@.len() == sd.count
    &&& sd.amounts@.len() == sd.count
    &&& forall|i: int, j: int|
        #![trigger sd.keys@[i], sd.keys@[j]]
        0 <= i < j < sd.keys@.len() ==> lex_lt(sd.keys@[i]@, sd.keys@[j]@)
    &&& forall|i: int|
        #![trigger sd.keys@[i]]
        0 <= i < sd.keys@.len() ==> {
            &&& m.dom().contains(sd.keys@[i]@)
            &&& in_range(sd.keys@[i]@, from, to)
            &&& m[sd.keys@[i]@].len() == 8
            &&& sd.amounts@[i] == spec_be_to_u64(m[sd.keys@[i]@])
        }
    &&& forall|kk: Seq<u8>|
        #![trigger m.dom().contains(kk)]
        m.dom().contains(kk) && in_range(kk, from, to) ==> exists|i: int|
            0 <= i < sd.keys@.len() && #[trigger] sd.keys@[i]@ == kk
}

/// Decodes one partition's scan rows: every value must hold exactly eight
/// bytes.
fn fold_rows(keys: Vec<Vec<u8>>, vals: &Vec<Vec<u8>>) -> (r: Result<SummaryData, StoreError>)
    requires
        keys@.len() == vals@.len(),
        keys@.len() <= u64::MAX,
    ensures
        r matches Ok(sd) ==> {
            &&& sd.keys@ == keys@
            &&& sd.count == keys@.len()
            &&& sd.amounts@.len() == keys@.len()
            &&& forall|i: int| 0 <= i < keys@.len() ==> (#[trigger] vals@[i]@).len() == 8
            &&& forall|i: int|
                0 <= i < keys@.len() ==> #[trigger] sd.amounts@[i] == spec_be_to_u64(vals@[i]@)
        },
        r is Err ==> exists|i: int| 0 <= i < vals@.len() && #[trigger] vals@[i]@.len() != 8,
{
    let mut amounts: Vec<u64> = Vec::new();
    let n = vals.len();
    let mut i: usize = 0;
    while i < n
        invariant
            0 <= i <= n,
            n == vals@.len(),
            amounts@.len() == i,
            forall|k: int| 0 <= k < i ==> (#[trigger] vals@[k]@).len() == 8,
            forall|k: int| 0 <= k < i ==> #[trigger] amounts@[k] == spec_be_to_u64(vals@[k]@),
        decreases n - i,
    {
        let v = &vals[i];
        if v.len() != 8 {
            return Err(StoreError::CorruptValue);
        }
        let ghost pre = amounts@;
        let x = be_to_u64(v.as_slice());
        amounts.push(x);
        proof {
            assert forall|k: int| 0 <= k < i + 1 implies (#[trigger] vals@[k]@).len() == 8 by {
                if k == i {
                    assert(vals@[k]@ == v@);
                }
            }
            assert forall|k: int| 0 <= k < i + 1 implies #[trigger] amounts@[k]
                == spec_be_to_u64(vals@[k]@) by {
                if k < i {
                    assert(amounts@[k] == pre[k]);
                } else {
                    assert(amounts@[k] == x);
                }
            }
        }
        i = i + 1;
    }
    let count = keys.len() as u64;
    Ok(SummaryData { count, keys, amounts })
}

/// The two partitions of the store.
pub struct Store {
    default_tree: sled::Tree,
    fallback_tree: sled::Tree,
}

impl Store {
    /// The default partition's contents.
    pub closed spec fn default_entries(&self) -> Map<Seq<u8>, Seq<u8>> {
        tree_entries(self.default_tree)
    }

    /// The fallback partition's contents.
    pub closed spec fn fallback_entries(&self) -> Map<Seq<u8>, Seq<u8>> {
        tree_entries(self.fallback_tree)
    }

    /// The contents of the named partition.
    pub open spec fn entries_of(&self, t: SledTree) -> Map<Seq<u8>, Seq<u8>> {
        match t {
            SledTree::Default => self.default_entries(),
            SledTree::Fallback => self.fallback_entries(),
        }
    }

    /// Wraps the two opened trees. The caller opens them under distinct
    /// names and hands over its only handles: the store then has the
    /// partitions to itself, which is what lets every mutation go
    /// through its exclusive methods.
    pub fn new(default_tree: sled::Tree, fallback_tree: sled::Tree) -> (r: Store)
        ensures
            r.default_entries() == tree_entries(default_tree),
            r.fallback_entries() == tree_entries(fallback_tree),
    {
        Store { default_tree, fallback_tree }
    }

    /// Writes one outcome: the eight big-endian bytes of `bits` under
    /// `key`, in the named partition; the other partition is untouched.
    pub fn write_amount(&mut self, key: &str, bits: u64, tree: SledTree) -> (r: Result<
        (),
        StoreError,
    >)
        ensures
            r is Ok ==> final(self).entries_of(tree) == old(self).entries_of(tree).insert(
                key.spec_bytes(),
                spec_be_bytes(bits),
            ),
            r is Ok && tree == SledTree::Default ==> final(self).fallback_entries() == old(
                self,
            ).fallback_entries(),
            r is Ok && tree == SledTree::Fallback ==> final(self).default_entries() == old(
                self,
            ).default_entries(),
    {
        let vb = be_bytes_of(bits);
        let res = match tree {
            SledTree::Default => tree_insert(&mut self.default_tree, key.as_bytes(), vb.as_slice()),
            SledTree::Fallback => tree_insert(
                &mut self.fallback_tree,
                key.as_bytes(),
                vb.as_slice(),
            ),
        };
        match res {
            Ok(()) => Ok(()),
            Err(_) => Err(StoreError::Engine),
        }
    }

    /// Scans one partition over the inclusive range and decodes the
    /// values. A range with `from > to` holds no keys.
    fn partition_summary(t: &sled::Tree, from: &str, to: &str) -> (r: Result<
        SummaryData,
        StoreError,
    >)
        ensures
            r matches Ok(sd) ==> summary_matches(
                tree_entries(*t),
                from.spec_bytes(),
                to.spec_bytes(),
                sd,
            ),
    {
        let rows = match tree_scan(t, from.as_bytes(), to.as_bytes()) {
            Ok(kv) => kv,
            Err(_) => {
                return Err(StoreError::Engine);
            },
        };
        let (keys, vals) = rows;
        let kn = keys.len();
        proof {
            assert(kn == keys@.len());
            assert(keys@.len() <= u64::MAX);
        }
        let sd = match fold_rows(keys, &vals) {
            Ok(sd) => sd,
            Err(e) => {
                return Err(e);
            },
        };
        proof {
            let m = tree_entries(*t);
            let fb = from.spec_bytes();
            let tb = to.spec_bytes();
            let ks = sd.keys@.map_values(|k: Vec<u8>| k@);
            assert(ks.no_duplicates()) by {
                assert forall|i: int, j: int|
                    0 <= i < ks.len() && 0 <= j < ks.len() && i != j implies ks[i] != ks[j] by {
                    if i < j {
                        assert(lex_lt(sd.keys@[i]@, sd.keys@[j]@));
                    } else {
                        assert(lex_lt(sd.keys@[j]@, sd.keys@[i]@));
                    }
                }
            }
            assert(ks.to_set() =~= range_keys(m, fb, tb)) by {
                assert forall|kk: Seq<u8>| ks.to_set().contains(kk) implies range_keys(
                    m,
                    fb,
                    tb,
                ).contains(kk) by {
                    let i = choose|i: int| 0 <= i < ks.len() && ks[i] == kk;
                    assert(m.dom().contains(sd.keys@[i]@));
                }
                assert forall|kk: Seq<u8>| range_keys(m, fb, tb).contains(kk) implies ks.to_set().contains(
                    kk,
                ) by {
                    assert(m.dom().contains(kk));
                    let i = choose|i: int| 0 <= i < sd.keys@.len() && sd.keys@[i]@ == kk;
                    assert(ks[i] == kk);
                    assert(ks.contains(kk));
                }
            }
            ks.unique_seq_to_set();
            broadcast use vstd::seq_lib::seq_to_set_is_finite;

            assert(range_keys(m, fb, tb).finite());
            assert(sd.count == range_keys(m, fb, tb).len());
        }
        Ok(sd)
    }

    /// Serves a range read over both partitions, inclusive on both ends.
    pub fn read_summary(&self, from: &str, to: &str) -> (r: Result<
        (SummaryData, SummaryData),
        StoreError,
    >)
        ensures
            r matches Ok(p) ==> summary_matches(
                self.default_entries(),
                from.spec_bytes(),
                to.spec_bytes(),
                p.0,
            ) && summary_matches(
                self.fallback_entries(),
                from.spec_bytes(),
                to.spec_bytes(),
                p.1,
            ),
    {
        let d = Self::partition_summary(&self.default_tree, from, to)?;
        let f = Self::partition_summary(&self.fallback_tree, from, to)?;
        Ok((d, f))
    }

    /// Deletes both partitions wholesale.
    pub fn purge(&mut self) -> (r: Result<(), StoreError>)
        ensures
            r is Ok ==> final(self).default_entries() == empty_entries(),
            r is Ok ==> final(self).fallback_entries() == empty_entries(),
    {
        let rd = tree_clear(&mut self.default_tree);
        let rf = tree_clear(&mut self.fallback_tree);
        match (rd, rf) {
            (Ok(()), Ok(())) => Ok(()),
            _ => Err(StoreError::Engine),
        }
    }

    /// One flush tick: syncs both partitions to disk; errors are reported
    /// but change nothing, and the next tick retries.
    pub fn flush_both(&mut self) -> (r: (bool, bool))
        ensures
            final(self).default_entries() == old(self).default_entries(),
            final(self).fallback_entries() == old(self).fallback_entries(),
    {
        let rd = tree_flush(&mut self.default_tree);
        let rf = tree_flush(&mut self.fallback_tree);
        (rd.is_ok(), rf.is_ok())
    }
}

} // verus!

verus! {

/// Applies a sequence of writes in order: each key gets its value.
pub open spec fn insert_all(
    m: Map<Seq<u8>, Seq<u8>>,
    ks: Seq<Seq<u8>>,
    vs: Seq<Seq<u8>>,
) -> Map<Seq<u8>, Seq<u8>>
    decreases ks.len(),
{
    if ks.len() == 0 {
        m
    } else {
        insert_all(m.insert(ks[0], vs[0]), ks.skip(1), vs.skip(1))
    }
}

proof fn lemma_insert_all_dom(m: Map<Seq<u8>, Seq<u8>>, ks: Seq<Seq<u8>>, vs: Seq<Seq<u8>>)
    requires
        ks.len() == vs.len(),
    ensures
        insert_all(m, ks, vs).dom() =~= m.dom() + ks.to_set(),
    decreases ks.len(),
{
    if ks.len() == 0 {
        assert(ks.to_set() =~= Set::<Seq<u8>>::empty());
    } else {
        lemma_insert_all_dom(m.insert(ks[0], vs[0]), ks.skip(1), vs.skip(1));
        assert(ks.to_set() =~= ks.skip(1).to_set().insert(ks[0])) by {
            assert forall|x: Seq<u8>| ks.to_set().contains(x) implies ks.skip(1).to_set().insert(
                ks[0],
            ).contains(x) by {
                let i = choose|i: int| 0 <= i < ks.len() && ks[i] == x;
                if i > 0 {
                    assert(ks.skip(1)[i - 1] == x);
                    assert(ks.skip(1).contains(x));
                }
            }
            assert forall|x: Seq<u8>| ks.skip(1).to_set().insert(ks[0]).contains(x) implies ks.to_set().contains(
                x,
            ) by {
                if x == ks[0] {
                    assert(ks.contains(x));
                } else {
                    let i = choose|i: int| 0 <= i < ks.skip(1).len() && ks.skip(1)[i] == x;
                    assert(ks[i + 1] == x);
                    assert(ks.contains(x));
                }
            }
        }
    }
}

/// A purged partition counts nothing: over any range, a summary of the
/// empty map has zero requests, no keys and no amounts, until new writes
/// change the map.
pub proof fn lemma_purged_summary_zero(from: Seq<u8>, to: Seq<u8>, sd: SummaryData)
    requires
        summary_matches(empty_entries(), from, to, sd),
    ensures
        sd.count == 0,
        sd.keys@.len() == 0,
        sd.amounts@.len() == 0,
{
    assert(range_keys(empty_entries(), from, to) =~= Set::<Seq<u8>>::empty());
}

/// A reversed range holds no keys: when `from > to`, any summary over it
/// counts zero.
pub proof fn lemma_reversed_range_zero(
    m: Map<Seq<u8>, Seq<u8>>,
    from: Seq<u8>,
    to: Seq<u8>,
    sd: SummaryData,
)
    requires
        !lex_le(from, to),
        summary_matches(m, from, to, sd),
    ensures
        sd.count == 0,
        sd.keys@.len() == 0,
        sd.amounts@.len() == 0,
{
    assert(range_keys(m, from, to) =~= Set::<Seq<u8>>::empty()) by {
        assert forall|k: Seq<u8>| !(range_keys(m, from, to).contains(k)) by {
            if lex_le(from, k) && lex_le(k, to) {
                crate::bytes::lemma_lex_le_trans(from, k, to);
            }
        }
    }
}

/// Summary ranges are inclusive on both ends: each bound, when it is a
/// key of the partition, lies in the counted range.
pub proof fn lemma_range_inclusive(m: Map<Seq<u8>, Seq<u8>>, from: Seq<u8>, to: Seq<u8>)
    requires
        lex_le(from, to),
    ensures
        m.dom().contains(from) ==> range_keys(m, from, to).contains(from),
        m.dom().contains(to) ==> range_keys(m, from, to).contains(to),
{
    crate::bytes::lemma_lex_le_refl(from);
    crate::bytes::lemma_lex_le_refl(to);
}

/// Writes with distinct strictly-increasing keys into an empty partition
/// are all counted by a summary from the first key to the last.
pub proof fn lemma_increasing_writes_all_counted(ks: Seq<Seq<u8>>, vs: Seq<Seq<u8>>)
    requires
        ks.len() == vs.len(),
        ks.len() > 0,
        forall|i: int, j: int| 0 <= i < j < ks.len() ==> lex_lt(ks[i], ks[j]),
    ensures
        range_keys(insert_all(empty_entries(), ks, vs), ks[0], ks[ks.len() - 1]).finite(),
        range_keys(insert_all(empty_entries(), ks, vs), ks[0], ks[ks.len() - 1]).len() == ks.len(),
{
    let m = insert_all(empty_entries(), ks, vs);
    lemma_insert_all_dom(empty_entries(), ks, vs);
    assert(m.dom() =~= ks.to_set());
    let first = ks[0];
    let last = ks[ks.len() - 1];
    assert forall|x: Seq<u8>| ks.to_set().contains(x) implies in_range(x, first, last) by {
        let i = choose|i: int| 0 <= i < ks.len() && ks[i] == x;
        if i == 0 {
            crate::bytes::lemma_lex_le_refl(first);
        } else {
            assert(lex_lt(ks[0], ks[i]));
        }
        if i == ks.len() - 1 {
            crate::bytes::lemma_lex_le_refl(last);
        } else {
            assert(lex_lt(ks[i], ks[ks.len() - 1]));
        }
    }
    assert(range_keys(m, first, last) =~= ks.to_set());
    assert(ks.no_duplicates()) by {
        assert forall|i: int, j: int|
            0 <= i < ks.len() && 0 <= j < ks.len() && i != j implies ks[i] != ks[j] by {
            if i < j {
                assert(lex_lt(ks[i], ks[j]));
            } else {
                assert(lex_lt(ks[j], ks[i]));
            }
        }
    }
    ks.unique_seq_to_set();
    broadcast use vstd::seq_lib::seq_to_set_is_finite;

    assert(ks.to_set().finite());
}

/// An amount is stored verbatim: after a write, the partition maps the
/// key to exactly the eight big-endian bytes of the 64-bit pattern —
/// zero, the largest values and negative patterns alike — and those bytes
/// decode back to the pattern.
pub proof fn lemma_amount_stored_verbatim(m: Map<Seq<u8>, Seq<u8>>, key: Seq<u8>, bits: u64)
    ensures
        m.insert(key, spec_be_bytes(bits))[key] == spec_be_bytes(bits),
        spec_be_to_u64(m.insert(key, spec_be_bytes(bits))[key]) == bits,
{
    crate::bytes::lemma_be_round_trip(bits);
}

} // verus!
