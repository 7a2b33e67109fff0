//! The storage engine: an authenticated key-value store with two-phase
//! batched writes. Mutations stage into a working state; `commit`
//! materializes the working state, and the root hash is a pure function of
//! the committed key-value set. Inclusion proofs are streams of proof
//! operations that a verifier refolds to the root hash.

use crate::bytestr;
use crate::bytestr::spec_lex_lt;
use crate::error::ManyError;
use vstd::prelude::*;

verus! {

broadcast use vstd::std_specs::vec::group_vec_axioms;

/// A staged mutation: write a value or delete the key.
#[derive(Clone, Debug)]
pub enum Op {
    Put(Vec<u8>),
    Delete,
}

/// One stored entry.
pub type Entry = (Vec<u8>, Vec<u8>);

/// The mathematical view of an entry list.
pub open spec fn entries_view(s: Seq<Entry>) -> Seq<(Seq<u8>, Seq<u8>)> {
    s.map(|i: int, e: Entry| (e.0@, e.1@))
}

/// The key-value map an entry list holds.
pub open spec fn kv_view(s: Seq<(Seq<u8>, Seq<u8>)>) -> Map<Seq<u8>, Seq<u8>>
    decreases s.len(),
{
    if s.len() == 0 {
        Map::empty()
    } else {
        kv_view(s.drop_last()).insert(s.last().0, s.last().1)
    }
}

/// Strictly ascending keys, in lexicographic order.
pub open spec fn kv_sorted(s: Seq<(Seq<u8>, Seq<u8>)>) -> bool {
    forall|i: int, j: int| 0 <= i < j < s.len() ==> spec_lex_lt(#[trigger] s[i].0, #[trigger] s[j].0)
}

/// Lexicographic order is irreflexive.
pub proof fn lemma_lex_irrefl(a: Seq<u8>)
    ensures
        !spec_lex_lt(a, a),
    decreases a.len(),
{
    if a.len() > 0 {
        lemma_lex_irrefl(a.drop_first());
    }
}

/// Lexicographic order is asymmetric.
pub proof fn lemma_lex_asym(a: Seq<u8>, b: Seq<u8>)
    requires
        spec_lex_lt(a, b),
    ensures
        !spec_lex_lt(b, a),
    decreases a.len(),
{
    if a.len() > 0 && b.len() > 0 && a[0] == b[0] {
        lemma_lex_asym(a.drop_first(), b.drop_first());
    }
}

/// Two distinct byte strings compare in one direction or the other.
pub proof fn lemma_lex_trichotomy(a: Seq<u8>, b: Seq<u8>)
    requires
        a != b,
    ensures
        spec_lex_lt(a, b) || spec_lex_lt(b, a),
    decreases a.len(),
{
    if a.len() == 0 {
        if b.len() == 0 {
            assert(a =~= b);
        }
    } else if b.len() == 0 {
    } else if a[0] == b[0] {
        if a.drop_first() == b.drop_first() {
            assert(a.drop_first().len() == b.drop_first().len());
            assert(a.len() == b.len());
            assert forall|i: int| 0 <= i < a.len() implies a[i] == b[i] by {
                if i > 0 {
                    assert(a[i] == a.drop_first()[i - 1]);
                    assert(b[i] == b.drop_first()[i - 1]);
                }
            }
            assert(a =~= b);
        }
        lemma_lex_trichotomy(a.drop_first(), b.drop_first());
    }
}

/// Lexicographic order is transitive.
pub proof fn lemma_lex_trans(a: Seq<u8>, b: Seq<u8>, c: Seq<u8>)
    requires
        spec_lex_lt(a, b),
        spec_lex_lt(b, c),
    ensures
        spec_lex_lt(a, c),
    decreases a.len(),
{
    if b.len() == 0 {
    } else if a.len() == 0 {
    } else if c.len() == 0 {
    } else {
        if a[0] == b[0] && b[0] == c[0] {
            lemma_lex_trans(a.drop_first(), b.drop_first(), c.drop_first());
        }
    }
}

/// A key is in the view exactly when some entry holds it, and then the view
/// maps it to the value of the last such entry; under distinct keys, of the
/// only such entry.
pub proof fn lemma_kv_view_membership(s: Seq<(Seq<u8>, Seq<u8>)>, k: Seq<u8>)
    ensures
        kv_view(s).contains_key(k) <==> exists|i: int| 0 <= i < s.len() && (#[trigger] s[i]).0 == k,
    decreases s.len(),
{
    if s.len() > 0 {
        lemma_kv_view_membership(s.drop_last(), k);
        if kv_view(s).contains_key(k) {
            if s.last().0 == k {
                assert(s[s.len() - 1].0 == k);
            } else {
                let dl = s.drop_last();
                let i = choose|i: int| 0 <= i < dl.len() && (#[trigger] dl[i]).0 == k;
                assert(s[i].0 == k);
            }
        }
        if exists|i: int| 0 <= i < s.len() && (#[trigger] s[i]).0 == k {
            let i = choose|i: int| 0 <= i < s.len() && (#[trigger] s[i]).0 == k;
            if i < s.len() - 1 {
                assert(s.drop_last()[i].0 == k);
            }
        }
    }
}

/// Under distinct keys, the view maps every entry's key to its value.
pub proof fn lemma_kv_view_value(s: Seq<(Seq<u8>, Seq<u8>)>, i: int)
    requires
        kv_sorted(s),
        0 <= i < s.len(),
    ensures
        kv_view(s).contains_key(s[i].0),
        kv_view(s)[s[i].0] == s[i].1,
    decreases s.len(),
{
    lemma_kv_view_membership(s, s[i].0);
    if i == s.len() - 1 {
    } else {
        assert(spec_lex_lt(s[i].0, s.last().0));
        lemma_lex_irrefl(s[i].0);
        assert(s[i].0 != s.last().0);
        assert(kv_sorted(s.drop_last())) by {
            assert(forall|x: int, y: int|
                0 <= x < y < s.drop_last().len() ==> spec_lex_lt(
                    #[trigger] s.drop_last()[x].0,
                    #[trigger] s.drop_last()[y].0,
                ));
        }
        lemma_kv_view_value(s.drop_last(), i);
    }
}

/// Two sorted entry lists with the same view are the same list.
pub proof fn lemma_sorted_canonical(s1: Seq<(Seq<u8>, Seq<u8>)>, s2: Seq<(Seq<u8>, Seq<u8>)>)
    requires
        kv_sorted(s1),
        kv_sorted(s2),
        kv_view(s1) == kv_view(s2),
    ensures
        s1 == s2,
    decreases s1.len(),
{
    lemma_kv_view_membership(s1, if s1.len() > 0 {
        s1.last().0
    } else {
        Seq::empty()
    });
    if s1.len() == 0 {
        if s2.len() > 0 {
            lemma_kv_view_value(s2, s2.len() - 1);
            assert(kv_view(s1).contains_key(s2.last().0));
            lemma_kv_view_membership(s1, s2.last().0);
            assert(false);
        }
        assert(s1 =~= s2);
    } else if s2.len() == 0 {
        lemma_kv_view_value(s1, s1.len() - 1);
        lemma_kv_view_membership(s2, s1.last().0);
        assert(false);
    } else {
        let k1 = s1.last().0;
        let k2 = s2.last().0;
        // Each last key is the maximum of its list; both lists share the
        // same key set, so the last keys agree.
        if k1 != k2 {
            lemma_kv_view_value(s1, s1.len() - 1);
            lemma_kv_view_value(s2, s2.len() - 1);
            lemma_kv_view_membership(s2, k1);
            lemma_kv_view_membership(s1, k2);
            let i2 = choose|i: int| 0 <= i < s2.len() && (#[trigger] s2[i]).0 == k1;
            let i1 = choose|i: int| 0 <= i < s1.len() && (#[trigger] s1[i]).0 == k1;
            let j1 = choose|i: int| 0 <= i < s1.len() && (#[trigger] s1[i]).0 == k2;
            assert(i2 < s2.len() - 1);
            assert(spec_lex_lt(k1, k2));
            assert(j1 < s1.len() - 1);
            assert(spec_lex_lt(k2, k1));
            lemma_lex_asym(k1, k2);
            assert(false);
        }
        lemma_kv_view_value(s1, s1.len() - 1);
        lemma_kv_view_value(s2, s2.len() - 1);
        assert(s1.last().1 == s2.last().1);
        // The views of the shortened lists agree: removing the maximal key.
        assert(kv_view(s1.drop_last()) =~= kv_view(s1).remove(k1)) by {
            lemma_kv_view_remove_last(s1);
        }
        assert(kv_view(s2.drop_last()) =~= kv_view(s2).remove(k2)) by {
            lemma_kv_view_remove_last(s2);
        }
        assert(kv_sorted(s1.drop_last())) by {
            assert(forall|x: int, y: int|
                0 <= x < y < s1.drop_last().len() ==> spec_lex_lt(
                    #[trigger] s1.drop_last()[x].0,
                    #[trigger] s1.drop_last()[y].0,
                ));
        }
        assert(kv_sorted(s2.drop_last())) by {
            assert(forall|x: int, y: int|
                0 <= x < y < s2.drop_last().len() ==> spec_lex_lt(
                    #[trigger] s2.drop_last()[x].0,
                    #[trigger] s2.drop_last()[y].0,
                ));
        }
        lemma_sorted_canonical(s1.drop_last(), s2.drop_last());
        assert(s1.last() == s2.last());
        assert(s1 =~= s1.drop_last().push(s1.last()));
        assert(s2 =~= s2.drop_last().push(s2.last()));
    }
}

/// Dropping the last entry of a sorted list removes exactly its key from
/// the view.
pub proof fn lemma_kv_view_remove_last(s: Seq<(Seq<u8>, Seq<u8>)>)
    requires
        kv_sorted(s),
        s.len() > 0,
    ensures
        kv_view(s.drop_last()) == kv_view(s).remove(s.last().0),
{
    let k = s.last().0;
    lemma_kv_view_membership(s.drop_last(), k);
    if kv_view(s.drop_last()).contains_key(k) {
        let dl = s.drop_last();
        let i = choose|i: int| 0 <= i < dl.len() && (#[trigger] dl[i]).0 == k;
        assert(spec_lex_lt(s[i].0, k));
        lemma_lex_irrefl(k);
        assert(false);
    }
    assert(kv_view(s.drop_last()) =~= kv_view(s).remove(k));
}

} // verus!

verus! {

/// A batch view: each staged mutation as key and optional new value.
pub open spec fn batch_view(s: Seq<(Vec<u8>, Op)>) -> Seq<(Seq<u8>, Option<Seq<u8>>)> {
    s.map(
        |i: int, e: (Vec<u8>, Op)|
            (
                e.0@,
                match e.1 {
                    Op::Put(v) => Some(v@),
                    Op::Delete => None,
                },
            ),
    )
}

/// One staged mutation applied to a map.
pub open spec fn apply_one(
    m: Map<Seq<u8>, Seq<u8>>,
    e: (Seq<u8>, Option<Seq<u8>>),
) -> Map<Seq<u8>, Seq<u8>> {
    match e.1 {
        Some(v) => m.insert(e.0, v),
        None => m.remove(e.0),
    }
}

/// A batch applied to a map, in order; later entries win.
pub open spec fn spec_apply(
    m: Map<Seq<u8>, Seq<u8>>,
    ops: Seq<(Seq<u8>, Option<Seq<u8>>)>,
) -> Map<Seq<u8>, Seq<u8>>
    decreases ops.len(),
{
    if ops.len() == 0 {
        m
    } else {
        apply_one(spec_apply(m, ops.drop_last()), ops.last())
    }
}

/// A key written at position `j` of a batch and untouched afterwards holds
/// the value written there.
pub proof fn lemma_apply_last_put(
    m: Map<Seq<u8>, Seq<u8>>,
    ops: Seq<(Seq<u8>, Option<Seq<u8>>)>,
    j: int,
    v: Seq<u8>,
)
    requires
        0 <= j < ops.len(),
        ops[j].1 == Some(v),
        forall|t: int| j < t < ops.len() ==> (#[trigger] ops[t]).0 != ops[j].0,
    ensures
        spec_apply(m, ops).contains_key(ops[j].0),
        spec_apply(m, ops)[ops[j].0] == v,
    decreases ops.len(),
{
    if j == ops.len() - 1 {
    } else {
        assert(ops.drop_last()[j] == ops[j]);
        lemma_apply_last_put(m, ops.drop_last(), j, v);
        assert(ops.last().0 != ops[j].0);
    }
}

/// A key written anywhere in a batch of writes is present afterwards.
pub proof fn lemma_apply_put_contains(
    m: Map<Seq<u8>, Seq<u8>>,
    ops: Seq<(Seq<u8>, Option<Seq<u8>>)>,
    j: int,
)
    requires
        0 <= j < ops.len(),
        ops[j].1 is Some,
        forall|t: int| 0 <= t < ops.len() ==> (#[trigger] ops[t]).1 is Some,
    ensures
        spec_apply(m, ops).contains_key(ops[j].0),
    decreases ops.len(),
{
    if j == ops.len() - 1 {
    } else {
        assert(ops.drop_last()[j] == ops[j]);
        lemma_apply_put_contains(m, ops.drop_last(), j);
    }
}

/// The view of a concatenation prefers the later entries.
pub proof fn lemma_kv_view_concat(a: Seq<(Seq<u8>, Seq<u8>)>, b: Seq<(Seq<u8>, Seq<u8>)>)
    ensures
        kv_view(a + b) == kv_view(a).union_prefer_right(kv_view(b)),
    decreases b.len(),
{
    if b.len() == 0 {
        assert(a + b =~= a);
        assert(kv_view(a).union_prefer_right(kv_view(b)) =~= kv_view(a));
    } else {
        lemma_kv_view_concat(a, b.drop_last());
        assert((a + b).drop_last() =~= a + b.drop_last());
        assert((a + b).last() == b.last());
        assert(kv_view(a + b) == kv_view(a + b.drop_last()).insert(b.last().0, b.last().1));
        assert(kv_view(a).union_prefer_right(kv_view(b.drop_last())).insert(b.last().0, b.last().1)
            =~= kv_view(a).union_prefer_right(kv_view(b)));
    }
}

/// Mapping a pushed list views the pushed entry last.
pub proof fn lemma_entries_view_push(s: Seq<Entry>, e: Entry)
    ensures
        entries_view(s.push(e)) == entries_view(s).push((e.0@, e.1@)),
{
    assert(entries_view(s.push(e)) =~= entries_view(s).push((e.0@, e.1@)));
}

/// The seed of the state digest.
pub const HASH_SEED: u64 = 0xcbf2_9ce4_8422_2325;

/// The multiplier of the state digest.
pub const HASH_PRIME: u64 = 0x0000_0100_0000_01b3;

/// The running digest of a byte string.
pub open spec fn spec_bytes_hash(b: Seq<u8>) -> u64
    decreases b.len(),
{
    if b.len() == 0 {
        HASH_SEED
    } else {
        (((spec_bytes_hash(b.drop_last()) ^ (b.last() as u64)) * HASH_PRIME) % 0x1_0000_0000_0000_0000) as u64
    }
}

/// Mixes two digests into one.
pub open spec fn spec_mix(a: u64, b: u64) -> u64 {
    ((((a ^ 0x9e37_79b9_7f4a_7c15) * HASH_PRIME) % 0x1_0000_0000_0000_0000) as u64 ^ b)
}

/// The digest of one entry.
pub open spec fn spec_leaf_hash(k: Seq<u8>, v: Seq<u8>) -> u64 {
    spec_mix(spec_bytes_hash(k), spec_bytes_hash(v))
}

/// The digest of a whole entry list: a left fold of the entry digests.
pub open spec fn spec_fold_hash(s: Seq<(Seq<u8>, Seq<u8>)>) -> u64
    decreases s.len(),
{
    if s.len() == 0 {
        HASH_SEED
    } else {
        spec_mix(spec_fold_hash(s.drop_last()), spec_leaf_hash(s.last().0, s.last().1))
    }
}

/// The root hash of a committed entry list: the fold digest in eight
/// big-endian bytes.
pub open spec fn spec_root_hash(s: Seq<(Seq<u8>, Seq<u8>)>) -> Seq<u8> {
    crate::eventid::spec_u64_be(spec_fold_hash(s))
}

/// Computes the running digest of a byte string.
fn bytes_hash(b: &Vec<u8>) -> (r: u64)
    ensures
        r == spec_bytes_hash(b@),
{
    let n = b.len();
    let mut h: u64 = HASH_SEED;
    let mut i: usize = 0;
    while i < n
        invariant
            i <= n,
            n == b@.len(),
            h == spec_bytes_hash(b@.take(i as int)),
        decreases n - i,
    {
        proof {
            assert(b@.take(i as int + 1).drop_last() =~= b@.take(i as int));
            assert(b@.take(i as int + 1).last() == b@[i as int]);
        }
        h = mul_mod(h ^ (b[i] as u64));
        i = i + 1;
    }
    assert(b@.take(n as int) =~= b@);
    h
}

/// Multiplies by the digest prime, keeping the low 64 bits.
fn mul_mod(x: u64) -> (r: u64)
    ensures
        r == ((x * HASH_PRIME) % 0x1_0000_0000_0000_0000) as u64,
{
    let wide: u128 = (x as u128) * (HASH_PRIME as u128);
    let r = (wide % 0x1_0000_0000_0000_0000u128) as u64;
    assert(r == ((x * HASH_PRIME) % 0x1_0000_0000_0000_0000) as u64) by (nonlinear_arith)
        requires
            wide == (x as u128) * (HASH_PRIME as u128),
            r == wide % 0x1_0000_0000_0000_0000u128,
    ;
    r
}

/// Mixes two digests.
fn mix(a: u64, b: u64) -> (r: u64)
    ensures
        r == spec_mix(a, b),
{
    mul_mod(a ^ 0x9e37_79b9_7f4a_7c15) ^ b
}

/// Computes the digest of one entry.
fn leaf_hash(k: &Vec<u8>, v: &Vec<u8>) -> (r: u64)
    ensures
        r == spec_leaf_hash(k@, v@),
{
    mix(bytes_hash(k), bytes_hash(v))
}

/// The authenticated key-value store. `working` carries the staged state
/// that `get` reads; `committed` is the state of the last commit, which the
/// root hash and the proofs speak about. Both lists are sorted by key.
pub struct Storage {
    committed: Vec<Entry>,
    working: Vec<Entry>,
}

impl Storage {
    /// The staged state, as a map.
    pub closed spec fn working_view(&self) -> Map<Seq<u8>, Seq<u8>> {
        kv_view(entries_view(self.working@))
    }

    /// The staged entries, in their sorted order.
    pub closed spec fn working_entry_views(&self) -> Seq<(Seq<u8>, Seq<u8>)> {
        entries_view(self.working@)
    }

    /// The committed state, as a map.
    pub closed spec fn committed_view(&self) -> Map<Seq<u8>, Seq<u8>> {
        kv_view(entries_view(self.committed@))
    }

    /// The committed state, as the sorted entry list the digest folds over.
    pub closed spec fn committed_entries(&self) -> Seq<(Seq<u8>, Seq<u8>)> {
        entries_view(self.committed@)
    }

    /// Both entry lists are sorted with distinct keys.
    pub closed spec fn wf(&self) -> bool {
        kv_sorted(entries_view(self.committed@)) && kv_sorted(entries_view(self.working@))
    }

    /// An empty store.
    pub fn new() -> (r: Storage)
        ensures
            r.wf(),
            r.working_view() == Map::<Seq<u8>, Seq<u8>>::empty(),
            r.committed_view() == Map::<Seq<u8>, Seq<u8>>::empty(),
    {
        let r = Storage { committed: Vec::new(), working: Vec::new() };
        proof {
            assert(entries_view(r.committed@) =~= Seq::<(Seq<u8>, Seq<u8>)>::empty());
            assert(entries_view(r.working@) =~= Seq::<(Seq<u8>, Seq<u8>)>::empty());
        }
        r
    }

    /// Reads a key from the staged state.
    pub fn get(&self, key: &Vec<u8>) -> (r: Option<Vec<u8>>)
        requires
            self.wf(),
        ensures
            r matches Some(v) ==> self.working_view().contains_key(key@)
                && self.working_view()[key@] == v@,
            r is None ==> !self.working_view().contains_key(key@),
    {
        let ghost sv = entries_view(self.working@);
        let n = self.working.len();
        let mut i: usize = 0;
        while i < n
            invariant
                i <= n,
                n == self.working@.len(),
                sv == entries_view(self.working@),
                self.wf(),
                forall|j: int| 0 <= j < i ==> (#[trigger] sv[j]).0 != key@,
            decreases n - i,
        {
            if &self.working[i].0 == key {
                assert(sv[i as int].0 == key@);
                proof {
                    lemma_kv_view_value(sv, i as int);
                }
                return Some(self.working[i].1.clone());
            }
            assert(sv[i as int].0 != key@);
            i = i + 1;
        }
        proof {
            lemma_kv_view_membership(sv, key@);
        }
        None
    }

    /// Stages one batch of mutations, in order.
    pub fn apply(&mut self, batch: &Vec<(Vec<u8>, Op)>)
        requires
            old(self).wf(),
        ensures
            final(self).wf(),
            final(self).working_view() == spec_apply(old(self).working_view(), batch_view(batch@)),
            final(self).committed_entries() == old(self).committed_entries(),
    {
        let n = batch.len();
        let mut i: usize = 0;
        while i < n
            invariant
                i <= n,
                n == batch@.len(),
                self.wf(),
                self.working_view() == spec_apply(
                    old(self).working_view(),
                    batch_view(batch@).take(i as int),
                ),
                self.committed_entries() == old(self).committed_entries(),
            decreases n - i,
        {
            proof {
                assert(batch_view(batch@).take(i as int + 1).drop_last() =~= batch_view(
                    batch@,
                ).take(i as int));
                assert(batch_view(batch@).take(i as int + 1).last() == batch_view(batch@)[i as int]);
            }
            match &batch[i].1 {
                Op::Put(v) => {
                    let w = put_entry(&self.working, &batch[i].0, v);
                    self.working = w;
                },
                Op::Delete => {
                    let w = delete_entry(&self.working, &batch[i].0);
                    self.working = w;
                },
            }
            i = i + 1;
        }
        proof {
            assert(batch_view(batch@).take(n as int) =~= batch_view(batch@));
        }
    }

    /// Materializes the staged state and returns the new root hash.
    pub fn commit(&mut self) -> (r: Vec<u8>)
        requires
            old(self).wf(),
        ensures
            final(self).wf(),
            final(self).committed_view() == old(self).working_view(),
            final(self).working_view() == old(self).working_view(),
            r@ == spec_root_hash(final(self).committed_entries()),
    {
        let mut copy: Vec<Entry> = Vec::new();
        let n = self.working.len();
        let mut i: usize = 0;
        while i < n
            invariant
                i <= n,
                n == self.working@.len(),
                copy@.len() == i,
                forall|j: int|
                    0 <= j < i ==> (#[trigger] copy@[j]).0@ == self.working@[j].0@ && copy@[j].1@
                        == self.working@[j].1@,
            decreases n - i,
        {
            copy.push((self.working[i].0.clone(), self.working[i].1.clone()));
            i = i + 1;
        }
        proof {
            assert(entries_view(copy@) =~= entries_view(self.working@));
        }
        self.committed = copy;
        self.root_hash()
    }

    /// A copy of the staged entries, in their sorted order.
    pub fn working_entries(&self) -> (r: Vec<Entry>)
        requires
            self.wf(),
        ensures
            entries_view(r@) == self.working_entry_views(),
            kv_sorted(entries_view(r@)),
            kv_view(entries_view(r@)) == self.working_view(),
    {
        let mut copy: Vec<Entry> = Vec::new();
        let n = self.working.len();
        let mut i: usize = 0;
        while i < n
            invariant
                i <= n,
                n == self.working@.len(),
                copy@.len() == i,
                forall|j: int|
                    0 <= j < i ==> (#[trigger] copy@[j]).0@ == self.working@[j].0@ && copy@[j].1@
                        == self.working@[j].1@,
            decreases n - i,
        {
            copy.push((self.working[i].0.clone(), self.working[i].1.clone()));
            i = i + 1;
        }
        proof {
            assert(entries_view(copy@) =~= entries_view(self.working@));
        }
        copy
    }

    /// The root hash of the committed state.
    pub fn root_hash(&self) -> (r: Vec<u8>)
        ensures
            r@ == spec_root_hash(self.committed_entries()),
    {
        let ghost sv = entries_view(self.committed@);
        let n = self.committed.len();
        let mut h: u64 = HASH_SEED;
        let mut i: usize = 0;
        while i < n
            invariant
                i <= n,
                n == self.committed@.len(),
                sv == entries_view(self.committed@),
                h == spec_fold_hash(sv.take(i as int)),
            decreases n - i,
        {
            proof {
                assert(sv.take(i as int + 1).drop_last() =~= sv.take(i as int));
                assert(sv.take(i as int + 1).last() == sv[i as int]);
            }
            let lh = leaf_hash(&self.committed[i].0, &self.committed[i].1);
            h = mix(h, lh);
            i = i + 1;
        }
        assert(sv.take(n as int) =~= sv);
        let r = crate::eventid::EventId::from_u64(h);
        r.to_vec()
    }
}

/// The root hash depends on the committed key-value set alone: two stores
/// whose committed maps agree have byte-identical root hashes.
pub proof fn lemma_root_hash_deterministic(s1: Storage, s2: Storage)
    requires
        s1.wf(),
        s2.wf(),
        s1.committed_view() == s2.committed_view(),
    ensures
        s1.committed_entries() == s2.committed_entries(),
        spec_root_hash(s1.committed_entries()) == spec_root_hash(s2.committed_entries()),
{
    lemma_sorted_canonical(s1.committed_entries(), s2.committed_entries());
}

/// Returns `v` with `key` bound to `val`, keeping the sorted order.
#[verifier::loop_isolation(false)]
#[verifier::rlimit(100)]
fn put_entry(v: &Vec<Entry>, key: &Vec<u8>, val: &Vec<u8>) -> (r: Vec<Entry>)
    requires
        kv_sorted(entries_view(v@)),
    ensures
        kv_sorted(entries_view(r@)),
        kv_view(entries_view(r@)) == kv_view(entries_view(v@)).insert(key@, val@),
{
    let ghost sv = entries_view(v@);
    let n = v.len();
    let mut out: Vec<Entry> = Vec::new();
    let mut i: usize = 0;
    // Copy the entries whose keys precede `key`.
    while i < n && bytestr::lex_lt(&v[i].0, key)
        invariant
            i <= n,
            out@.len() == i,
            entries_view(out@) =~= sv.take(i as int),
            forall|j: int| 0 <= j < i ==> spec_lex_lt((#[trigger] sv[j]).0, key@),
        decreases n - i,
    {
        let ghost before = out@;
        out.push((v[i].0.clone(), v[i].1.clone()));
        proof {
            lemma_entries_view_push(before, (v@[i as int].0, v@[i as int].1));
        }
        i = i + 1;
    }
    let ghost p = i as int;
    assert(entries_view(out@) =~= sv.take(p));
    let ghost before_mid = out@;
    let mid_entry = (key.clone(), val.clone());
    let ghost mid_entry_g = mid_entry;
    out.push(mid_entry);
    proof {
        lemma_entries_view_push(before_mid, mid_entry_g);
    }
    assert(entries_view(out@) =~= sv.take(p) + seq![(key@, val@)]);
    // Skip an entry holding the key itself.
    let mut q = i;
    if q < n {
        if &v[q].0 == key {
            assert(sv[i as int].0 == key@);
            q = q + 1;
        } else {
            assert(sv[i as int].0 != key@);
            proof {
                lemma_lex_trichotomy(sv[i as int].0, key@);
            }
            assert(spec_lex_lt(key@, sv[i as int].0));
        }
    }
    proof {
        lemma_lex_irrefl(key@);
    }
    let ghost qg = q as int;
    // Copy the rest; their keys all follow `key`.
    let mut j = q;
    while j < n
        invariant
            qg <= j <= n,
            out@.len() == p + 1 + (j - qg),
            entries_view(out@) =~= sv.take(p) + seq![(key@, val@)] + sv.subrange(qg, j as int),
        decreases n - j,
    {
        let ghost before = out@;
        out.push((v[j].0.clone(), v[j].1.clone()));
        proof {
            lemma_entries_view_push(before, (v@[j as int].0, v@[j as int].1));
            assert(sv.subrange(qg, j as int + 1) =~= sv.subrange(qg, j as int).push(sv[j as int]));
            assert(entries_view(out@) =~= sv.take(p) + seq![(key@, val@)] + sv.subrange(
                qg,
                j as int + 1,
            ));
        }
        j = j + 1;
    }
    let ghost ov = entries_view(out@);
    proof {
        assert(ov =~= sv.take(p) + seq![(key@, val@)] + sv.subrange(qg, sv.len() as int));
        lemma_put_entry_shape(sv, key@, val@, p, qg);
    }
    out
}

/// The sorted-insert result list is sorted and its view is the insertion.
#[verifier::rlimit(100)]
#[verifier::spinoff_prover]
proof fn lemma_put_entry_shape(sv: Seq<(Seq<u8>, Seq<u8>)>, key: Seq<u8>, val: Seq<u8>, p: int, q: int)
    requires
        kv_sorted(sv),
        0 <= p <= q <= sv.len(),
        q == p || q == p + 1,
        forall|j: int| 0 <= j < p ==> spec_lex_lt((#[trigger] sv[j]).0, key),
        q == p + 1 ==> sv[p].0 == key,
        p < sv.len() && q == p ==> spec_lex_lt(key, sv[p].0),
    ensures
        kv_sorted(sv.take(p) + seq![(key, val)] + sv.subrange(q, sv.len() as int)),
        kv_view(sv.take(p) + seq![(key, val)] + sv.subrange(q, sv.len() as int)) == kv_view(
            sv,
        ).insert(key, val),
{
    let pre = sv.take(p);
    let mid = seq![(key, val)];
    let suf = sv.subrange(q, sv.len() as int);
    let whole = pre + mid + suf;
    // Sortedness: keys in `pre` precede `key`, which precedes keys in `suf`.
    assert forall|a: int, b: int| 0 <= a < b < whole.len() implies spec_lex_lt(
        #[trigger] whole[a].0,
        #[trigger] whole[b].0,
    ) by {
        if a < p && b < p {
        } else if a < p && b == p {
        } else if a < p && b > p {
            assert(whole[b] == sv[q + (b - p - 1)]);
            if q == p {
                lemma_lex_trans(whole[a].0, key, sv[p].0);
                if b - p - 1 > 0 {
                    lemma_lex_trans(whole[a].0, sv[p].0, sv[q + (b - p - 1)].0);
                } else {
                    lemma_lex_trans(whole[a].0, key, sv[q].0);
                }
            }
        } else if a == p && b > p {
            assert(whole[b] == sv[q + (b - p - 1)]);
            if q == p {
                if b - p - 1 > 0 {
                    lemma_lex_trans(key, sv[q].0, sv[q + (b - p - 1)].0);
                }
            } else {
                assert(sv[p].0 == key);
                assert(spec_lex_lt(sv[p].0, sv[q + (b - p - 1)].0));
            }
        } else {
            assert(whole[a] == sv[q + (a - p - 1)]);
            assert(whole[b] == sv[q + (b - p - 1)]);
        }
    }
    // View: split into the three parts and reason on the maps.
    lemma_kv_view_concat(pre + mid, suf);
    lemma_kv_view_concat(pre, mid);
    lemma_kv_view_concat(sv.take(q), suf);
    assert(sv.take(q) + suf =~= sv);
    assert(mid.drop_last() =~= Seq::<(Seq<u8>, Seq<u8>)>::empty());
    assert(kv_view(mid.drop_last()) == Map::<Seq<u8>, Seq<u8>>::empty());
    assert(kv_view(mid) =~= Map::<Seq<u8>, Seq<u8>>::empty().insert(key, val));
    if q == p + 1 {
        assert(sv.take(q).drop_last() =~= pre);
        assert(sv.take(q).last() == sv[p]);
        assert(kv_view(sv.take(q)) == kv_view(pre).insert(key, sv[p].1));
    } else {
        assert(sv.take(q) =~= pre);
    }
    // Keys in the prefix precede `key`; keys in the suffix follow it.
    assert forall|k2: Seq<u8>| #[trigger] kv_view(pre).contains_key(k2) implies spec_lex_lt(
        k2,
        key,
    ) by {
        lemma_kv_view_membership(pre, k2);
        let i = choose|i: int| 0 <= i < pre.len() && (#[trigger] pre[i]).0 == k2;
        assert(pre[i] == sv[i]);
    }
    assert forall|k2: Seq<u8>| #[trigger] kv_view(suf).contains_key(k2) implies spec_lex_lt(
        key,
        k2,
    ) by {
        lemma_kv_view_membership(suf, k2);
        let i = choose|i: int| 0 <= i < suf.len() && (#[trigger] suf[i]).0 == k2;
        assert(suf[i] == sv[q + i]);
        if q == p + 1 {
            assert(spec_lex_lt(sv[p].0, sv[q + i].0));
        } else {
            if i == 0 {
            } else {
                lemma_lex_trans(key, sv[p].0, sv[q + i].0);
            }
        }
    }
    lemma_lex_irrefl(key);
    assert(!kv_view(pre).contains_key(key));
    assert(!kv_view(suf).contains_key(key));
    assert(kv_view(whole) =~= kv_view(sv).insert(key, val));
}

/// Returns `v` without any entry holding `key`, keeping the sorted order.
#[verifier::loop_isolation(false)]
#[verifier::rlimit(100)]
fn delete_entry(v: &Vec<Entry>, key: &Vec<u8>) -> (r: Vec<Entry>)
    requires
        kv_sorted(entries_view(v@)),
    ensures
        kv_sorted(entries_view(r@)),
        kv_view(entries_view(r@)) == kv_view(entries_view(v@)).remove(key@),
{
    let ghost sv = entries_view(v@);
    let n = v.len();
    let mut out: Vec<Entry> = Vec::new();
    let mut i: usize = 0;
    while i < n
        invariant
            i <= n,
            entries_view(out@) =~= spec_filter_key(sv.take(i as int), key@),
        decreases n - i,
    {
        assert(sv[i as int] == (v@[i as int].0@, v@[i as int].1@));
        if !(&v[i].0 == key) {
            assert(sv[i as int].0 != key@);
            let ghost before = out@;
            out.push((v[i].0.clone(), v[i].1.clone()));
            proof {
                lemma_entries_view_push(before, (v@[i as int].0, v@[i as int].1));
            }
        } else {
            assert(sv[i as int].0 == key@);
        }
        proof {
            assert(sv.take(i as int + 1).drop_last() =~= sv.take(i as int));
            assert(sv.take(i as int + 1).last() == sv[i as int]);
            lemma_filter_key_step(sv.take(i as int + 1), key@);
        }
        i = i + 1;
    }
    proof {
        assert(sv.take(n as int) =~= sv);
        lemma_filter_key_shape(sv, key@);
    }
    out
}

/// The entries of a list whose keys differ from `key`, in order.
pub open spec fn spec_filter_key(s: Seq<(Seq<u8>, Seq<u8>)>, key: Seq<u8>) -> Seq<
    (Seq<u8>, Seq<u8>),
>
    decreases s.len(),
{
    if s.len() == 0 {
        Seq::empty()
    } else if s.last().0 == key {
        spec_filter_key(s.drop_last(), key)
    } else {
        spec_filter_key(s.drop_last(), key).push(s.last())
    }
}

/// One filtering step.
proof fn lemma_filter_key_step(s: Seq<(Seq<u8>, Seq<u8>)>, key: Seq<u8>)
    requires
        s.len() > 0,
    ensures
        s.last().0 == key ==> spec_filter_key(s, key) == spec_filter_key(s.drop_last(), key),
        s.last().0 != key ==> spec_filter_key(s, key) == spec_filter_key(s.drop_last(), key).push(
            s.last(),
        ),
{
}

/// Filtering a sorted list keeps it sorted and removes the key from its
/// view.
proof fn lemma_filter_key_shape(s: Seq<(Seq<u8>, Seq<u8>)>, key: Seq<u8>)
    requires
        kv_sorted(s),
    ensures
        kv_sorted(spec_filter_key(s, key)),
        kv_view(spec_filter_key(s, key)) == kv_view(s).remove(key),
        forall|j: int|
            0 <= j < spec_filter_key(s, key).len() ==> exists|i: int|
                0 <= i < s.len() && s[i] == #[trigger] spec_filter_key(s, key)[j],
    decreases s.len(),
{
    let f = spec_filter_key(s, key);
    if s.len() == 0 {
        assert(kv_view(f) =~= kv_view(s).remove(key));
    } else {
        assert(kv_sorted(s.drop_last())) by {
            assert(forall|x: int, y: int|
                0 <= x < y < s.drop_last().len() ==> spec_lex_lt(
                    #[trigger] s.drop_last()[x].0,
                    #[trigger] s.drop_last()[y].0,
                ));
        }
        lemma_filter_key_shape(s.drop_last(), key);
        let fd = spec_filter_key(s.drop_last(), key);
        if s.last().0 == key {
            // The last entry is dropped; its key cannot occur earlier.
            lemma_kv_view_remove_last(s);
            assert(kv_view(f) =~= kv_view(s).remove(key));
        } else {
            assert(f == fd.push(s.last()));
            assert forall|a: int, b: int| 0 <= a < b < f.len() implies spec_lex_lt(
                #[trigger] f[a].0,
                #[trigger] f[b].0,
            ) by {
                if b < f.len() - 1 {
                    assert(f[a] == fd[a] && f[b] == fd[b]);
                } else {
                    assert(f[b] == s.last());
                    let ia = choose|i: int|
                        0 <= i < s.drop_last().len() && s.drop_last()[i] == #[trigger] fd[a];
                    assert(s[ia] == fd[a]);
                    assert(spec_lex_lt(s[ia].0, s.last().0));
                }
            }
            assert(f.drop_last() =~= fd);
            assert(f.last() == s.last());
            assert(kv_view(f) == kv_view(fd).insert(s.last().0, s.last().1));
            assert(kv_view(f) =~= kv_view(s).remove(key));
            assert forall|j: int|
                0 <= j < f.len() implies exists|i: int| 0 <= i < s.len() && s[i] == #[trigger] f[j] by {
                if j < f.len() - 1 {
                    let ia = choose|i: int|
                        0 <= i < s.drop_last().len() && s.drop_last()[i] == #[trigger] fd[j];
                    assert(s[ia] == f[j]);
                } else {
                    assert(s[s.len() - 1] == f[j]);
                }
            }
        }
    }
}

} // verus!

verus! {

/// One step of a proof stream. `NodeHash` and `KeyValueHash` push an
/// already-computed digest; `KeyValuePair` reveals an entry and pushes its
/// digest; `Child` folds the top of the stack into the digest below it as
/// the newer contribution, `Parent` as the older one.
pub enum ProofOperation {
    Child,
    Parent,
    NodeHash(Vec<u8>),
    KeyValueHash(Vec<u8>),
    KeyValuePair(Vec<u8>, Vec<u8>),
}

/// The eight big-endian bytes read back as a digest.
pub open spec fn spec_u64_from_be(s: Seq<u8>) -> u64 {
    (((s[0] as u64) << 56) | ((s[1] as u64) << 48) | ((s[2] as u64) << 40) | ((s[3] as u64) << 32)
        | ((s[4] as u64) << 24) | ((s[5] as u64) << 16) | ((s[6] as u64) << 8) | (s[7] as u64))
}

/// Reading back the eight big-endian bytes of a digest yields the digest.
pub proof fn lemma_u64_be_round_trip(v: u64)
    ensures
        spec_u64_from_be(crate::eventid::spec_u64_be(v)) == v,
{
    assert(((((v >> 56) as u8) as u64) << 56) | ((((v >> 48) as u8) as u64) << 48) | ((((v >> 40)
        as u8) as u64) << 40) | ((((v >> 32) as u8) as u64) << 32) | ((((v >> 24) as u8) as u64)
        << 24) | ((((v >> 16) as u8) as u64) << 16) | ((((v >> 8) as u8) as u64) << 8) | ((
    v as u8) as u64) == v) by (bit_vector);
}

/// The machine state of a proof verifier: a digest stack and the revealed
/// entries, in stream order.
pub struct ProofState {
    pub stack: Seq<u64>,
    pub pairs: Seq<(Seq<u8>, Seq<u8>)>,
}

/// One proof operation applied to a machine state.
pub open spec fn spec_step(st: ProofState, op: ProofOperation) -> Option<ProofState> {
    match op {
        ProofOperation::NodeHash(h) => if h@.len() == 8 {
            Some(ProofState { stack: st.stack.push(spec_u64_from_be(h@)), pairs: st.pairs })
        } else {
            None
        },
        ProofOperation::KeyValueHash(h) => if h@.len() == 8 {
            Some(ProofState { stack: st.stack.push(spec_u64_from_be(h@)), pairs: st.pairs })
        } else {
            None
        },
        ProofOperation::KeyValuePair(k, v) => Some(
            ProofState {
                stack: st.stack.push(spec_leaf_hash(k@, v@)),
                pairs: st.pairs.push((k@, v@)),
            },
        ),
        ProofOperation::Child => if st.stack.len() >= 2 {
            Some(
                ProofState {
                    stack: st.stack.drop_last().drop_last().push(
                        spec_mix(st.stack[st.stack.len() - 2], st.stack.last()),
                    ),
                    pairs: st.pairs,
                },
            )
        } else {
            None
        },
        ProofOperation::Parent => if st.stack.len() >= 2 {
            Some(
                ProofState {
                    stack: st.stack.drop_last().drop_last().push(
                        spec_mix(st.stack.last(), st.stack[st.stack.len() - 2]),
                    ),
                    pairs: st.pairs,
                },
            )
        } else {
            None
        },
    }
}

/// A whole proof stream run from a machine state.
pub open spec fn spec_run(ops: Seq<ProofOperation>, st: ProofState) -> Option<ProofState>
    decreases ops.len(),
{
    if ops.len() == 0 {
        Some(st)
    } else {
        match spec_run(ops.drop_last(), st) {
            Some(st2) => spec_step(st2, ops.last()),
            None => None,
        }
    }
}

/// The committed entries whose keys are in `sel`, in committed order.
pub open spec fn spec_selected(s: Seq<(Seq<u8>, Seq<u8>)>, sel: Set<Seq<u8>>) -> Seq<
    (Seq<u8>, Seq<u8>),
>
    decreases s.len(),
{
    if s.len() == 0 {
        Seq::empty()
    } else if sel.contains(s.last().0) {
        spec_selected(s.drop_last(), sel).push(s.last())
    } else {
        spec_selected(s.drop_last(), sel)
    }
}

/// The set of keys a list of key vectors names.
pub open spec fn keys_set(keys: Seq<Vec<u8>>) -> Set<Seq<u8>> {
    Set::new(|k: Seq<u8>| exists|i: int| 0 <= i < keys.len() && (#[trigger] keys[i])@ == k)
}

impl Storage {
    /// Builds an inclusion proof for the given keys against the committed
    /// state. Succeeds exactly when every key is committed; the proof then
    /// runs from the empty machine state to a single digest, the one the
    /// root hash encodes, revealing exactly the selected entries.
    #[verifier::loop_isolation(false)]
    #[verifier::rlimit(100)]
    pub fn prove(&self, keys: &Vec<Vec<u8>>) -> (r: Result<Vec<ProofOperation>, ManyError>)
        requires
            self.wf(),
        ensures
            r is Ok <==> (forall|i: int|
                0 <= i < keys@.len() ==> self.committed_view().contains_key(
                    (#[trigger] keys@[i])@,
                )),
            r matches Ok(ops) ==> spec_run(
                ops@,
                ProofState { stack: Seq::empty(), pairs: Seq::empty() },
            ) == Some(
                ProofState {
                    stack: seq![spec_fold_hash(self.committed_entries())],
                    pairs: spec_selected(self.committed_entries(), keys_set(keys@)),
                },
            ),
    {
        let ghost sv = self.committed_entries();
        // Every requested key must be committed.
        let kn = keys.len();
        let mut ki: usize = 0;
        while ki < kn
            invariant
                ki <= kn,
                forall|i: int|
                    0 <= i < ki ==> self.committed_view().contains_key((#[trigger] keys@[i])@),
            decreases kn - ki,
        {
            if !self.committed_contains(&keys[ki]) {
                return Err(ManyError::unknown(String::new()));
            }
            ki = ki + 1;
        }
        let mut ops: Vec<ProofOperation> = Vec::new();
        let seed = crate::eventid::EventId::from_u64(HASH_SEED);
        proof {
            lemma_u64_be_round_trip(HASH_SEED);
        }
        ops.push(ProofOperation::NodeHash(seed.to_vec()));
        proof {
            assert(ops@.drop_last() =~= Seq::<ProofOperation>::empty());
            assert(spec_run(
                Seq::<ProofOperation>::empty(),
                ProofState { stack: Seq::empty(), pairs: Seq::empty() },
            ) == Some(ProofState { stack: Seq::empty(), pairs: Seq::empty() }));
            assert(Seq::<u64>::empty().push(HASH_SEED) =~= seq![HASH_SEED]);
            assert(sv.take(0) =~= Seq::<(Seq<u8>, Seq<u8>)>::empty());
            assert(spec_fold_hash(sv.take(0)) == HASH_SEED);
            assert(spec_selected(sv.take(0), keys_set(keys@)) =~= Seq::<(Seq<u8>, Seq<u8>)>::empty());
            assert(spec_run(ops@, ProofState { stack: Seq::empty(), pairs: Seq::empty() })
                == Some(ProofState { stack: seq![HASH_SEED], pairs: Seq::empty() }));
        }
        let n = self.committed.len();
        let mut j: usize = 0;
        while j < n
            invariant
                j <= n,
                spec_run(ops@, ProofState { stack: Seq::empty(), pairs: Seq::empty() }) == Some(
                    ProofState {
                        stack: seq![spec_fold_hash(sv.take(j as int))],
                        pairs: spec_selected(sv.take(j as int), keys_set(keys@)),
                    },
                ),
            decreases n - j,
        {
            let ghost pre_state = ProofState {
                stack: seq![spec_fold_hash(sv.take(j as int))],
                pairs: spec_selected(sv.take(j as int), keys_set(keys@)),
            };
            let in_sel = contains_key_vec(keys, &self.committed[j].0);
            let ghost ops0 = ops@;
            if in_sel {
                let kc = self.committed[j].0.clone();
                let vc = self.committed[j].1.clone();
                assert(kc@ == sv[j as int].0 && vc@ == sv[j as int].1);
                ops.push(ProofOperation::KeyValuePair(kc, vc));
            } else {
                let lh = leaf_hash(&self.committed[j].0, &self.committed[j].1);
                let hb = crate::eventid::EventId::from_u64(lh);
                proof {
                    lemma_u64_be_round_trip(lh);
                }
                ops.push(ProofOperation::KeyValueHash(hb.to_vec()));
            }
            let ghost ops1 = ops@;
            ops.push(ProofOperation::Child);
            proof {
                assert(ops1.drop_last() =~= ops0);
                assert(ops@.drop_last() =~= ops1);
                let ks = keys_set(keys@);
                assert(sv.take(j as int + 1).drop_last() =~= sv.take(j as int));
                assert(sv.take(j as int + 1).last() == sv[j as int]);
                let st0 = ProofState { stack: Seq::empty(), pairs: Seq::empty() };
                let mid = spec_step(pre_state, ops1.last());
                assert(spec_run(ops1, st0) == mid);
                assert(mid is Some);
                let st2 = mid->Some_0;
                assert(ops@.last() == ProofOperation::Child);
                assert(spec_run(ops@, st0) == spec_step(st2, ProofOperation::Child));
                assert(st2.stack == pre_state.stack.push(
                    spec_leaf_hash(sv[j as int].0, sv[j as int].1),
                ));
                if in_sel {
                    assert(st2.pairs == pre_state.pairs.push(sv[j as int]));
                    assert(spec_selected(sv.take(j as int + 1), ks) == spec_selected(
                        sv.take(j as int),
                        ks,
                    ).push(sv[j as int]));
                } else {
                    assert(st2.pairs == pre_state.pairs);
                    assert(spec_selected(sv.take(j as int + 1), ks) == spec_selected(
                        sv.take(j as int),
                        ks,
                    ));
                }
                assert(st2.stack.len() == 2);
                assert(st2.stack.drop_last().drop_last() =~= Seq::<u64>::empty());
                assert(st2.stack[st2.stack.len() - 2] == spec_fold_hash(sv.take(j as int)));
                assert(st2.stack.last() == spec_leaf_hash(sv[j as int].0, sv[j as int].1));
                assert(spec_fold_hash(sv.take(j as int + 1)) == spec_mix(
                    spec_fold_hash(sv.take(j as int)),
                    spec_leaf_hash(sv[j as int].0, sv[j as int].1),
                ));
                assert(Seq::<u64>::empty().push(spec_fold_hash(sv.take(j as int + 1))) =~= seq![
                    spec_fold_hash(sv.take(j as int + 1)),
                ]);
            }
            j = j + 1;
        }
        proof {
            assert(sv.take(n as int) =~= sv);
        }
        Ok(ops)
    }

    /// True when the committed state holds `key`.
    fn committed_contains(&self, key: &Vec<u8>) -> (r: bool)
        requires
            self.wf(),
        ensures
            r == self.committed_view().contains_key(key@),
    {
        let ghost sv = self.committed_entries();
        let n = self.committed.len();
        let mut i: usize = 0;
        while i < n
            invariant
                i <= n,
                n == self.committed@.len(),
                sv == self.committed_entries(),
                self.wf(),
                forall|j: int| 0 <= j < i ==> (#[trigger] sv[j]).0 != key@,
            decreases n - i,
        {
            if &self.committed[i].0 == key {
                assert(sv[i as int].0 == key@);
                proof {
                    lemma_kv_view_value(sv, i as int);
                }
                return true;
            }
            assert(sv[i as int].0 != key@);
            i = i + 1;
        }
        proof {
            lemma_kv_view_membership(sv, key@);
        }
        false
    }
}

/// True when one of the key vectors equals `key`.
fn contains_key_vec(keys: &Vec<Vec<u8>>, key: &Vec<u8>) -> (r: bool)
    ensures
        r == keys_set(keys@).contains(key@),
{
    let n = keys.len();
    let mut i: usize = 0;
    while i < n
        invariant
            i <= n,
            n == keys@.len(),
            forall|j: int| 0 <= j < i ==> (#[trigger] keys@[j])@ != key@,
        decreases n - i,
    {
        if &keys[i] == key {
            assert(keys@[i as int]@ == key@);
            assert(keys_set(keys@).contains(key@));
            return true;
        }
        assert(keys@[i as int]@ != key@);
        i = i + 1;
    }
    assert(!keys_set(keys@).contains(key@));
    false
}

/// Runs a proof stream. Succeeds when the machine never underflows and ends
/// with a single digest on the stack; returns that digest in its eight
/// big-endian bytes together with the revealed entries.
#[verifier::loop_isolation(false)]
#[verifier::rlimit(100)]
pub fn verify_proof(ops: &Vec<ProofOperation>) -> (r: Option<(Vec<u8>, Vec<Entry>)>)
    ensures
        r matches Some((root, pairs)) ==> (exists|st: ProofState|
            {
                &&& spec_run(ops@, ProofState { stack: Seq::empty(), pairs: Seq::empty() })
                    == Some(st)
                &&& st.stack.len() == 1
                &&& root@ == crate::eventid::spec_u64_be(st.stack[0])
                &&& entries_view(pairs@) == st.pairs
            }),
        r is None ==> !(exists|st: ProofState|
            spec_run(ops@, ProofState { stack: Seq::empty(), pairs: Seq::empty() }) == Some(st)
                && st.stack.len() == 1),
{
    let n = ops.len();
    let mut stack: Vec<u64> = Vec::new();
    let mut pairs: Vec<Entry> = Vec::new();
    proof {
        assert(ops@.take(0) =~= Seq::<ProofOperation>::empty());
        assert(entries_view(pairs@) =~= Seq::<(Seq<u8>, Seq<u8>)>::empty());
        assert(stack@ =~= Seq::<u64>::empty());
    }
    let mut i: usize = 0;
    while i < n
        invariant
            i <= n,
            spec_run(ops@.take(i as int), ProofState { stack: Seq::empty(), pairs: Seq::empty() })
                == Some(ProofState { stack: stack@, pairs: entries_view(pairs@) }),
        decreases n - i,
    {
        proof {
            assert(ops@.take(i as int + 1).drop_last() =~= ops@.take(i as int));
            assert(ops@.take(i as int + 1).last() == ops@[i as int]);
        }
        match &ops[i] {
            ProofOperation::NodeHash(h) => {
                if h.len() != 8 {
                    proof {
                        lemma_run_fail(ops@, i as int);
                    }
                    return None;
                }
                let v = u64_from_be(h);
                stack.push(v);
            },
            ProofOperation::KeyValueHash(h) => {
                if h.len() != 8 {
                    proof {
                        lemma_run_fail(ops@, i as int);
                    }
                    return None;
                }
                let v = u64_from_be(h);
                stack.push(v);
            },
            ProofOperation::KeyValuePair(k, v) => {
                let lh = leaf_hash(k, v);
                stack.push(lh);
                let ghost before = pairs@;
                let entry = (k.clone(), v.clone());
                let ghost entry_g = entry;
                pairs.push(entry);
                proof {
                    lemma_entries_view_push(before, entry_g);
                    assert(entries_view(pairs@) =~= entries_view(before).push(
                        (ops@[i as int]->KeyValuePair_0@, ops@[i as int]->KeyValuePair_1@),
                    ));
                }
            },
            ProofOperation::Child => {
                if stack.len() < 2 {
                    proof {
                        lemma_run_fail(ops@, i as int);
                    }
                    return None;
                }
                let b = stack.pop().unwrap();
                let a = stack.pop().unwrap();
                stack.push(mix(a, b));
            },
            ProofOperation::Parent => {
                if stack.len() < 2 {
                    proof {
                        lemma_run_fail(ops@, i as int);
                    }
                    return None;
                }
                let b = stack.pop().unwrap();
                let a = stack.pop().unwrap();
                stack.push(mix(b, a));
            },
        }
        i = i + 1;
    }
    proof {
        assert(ops@.take(n as int) =~= ops@);
    }
    if stack.len() != 1 {
        return None;
    }
    let root = crate::eventid::EventId::from_u64(stack[0]);
    proof {
        assert(stack@[0] == Some(ProofState { stack: stack@, pairs: entries_view(pairs@) })->Some_0.stack[0]);
    }
    Some((root.to_vec(), pairs))
}

/// A failed step fails the whole remaining run.
proof fn lemma_run_fail(ops: Seq<ProofOperation>, i: int)
    requires
        0 <= i < ops.len(),
        spec_run(ops.take(i + 1), ProofState { stack: Seq::empty(), pairs: Seq::empty() })
            is None,
    ensures
        forall|j: int|
            i < j <= ops.len() ==> spec_run(
                #[trigger] ops.take(j),
                ProofState { stack: Seq::empty(), pairs: Seq::empty() },
            ) is None,
        spec_run(ops, ProofState { stack: Seq::empty(), pairs: Seq::empty() }) is None,
{
    assert forall|j: int|
        i < j <= ops.len() implies spec_run(
        #[trigger] ops.take(j),
        ProofState { stack: Seq::empty(), pairs: Seq::empty() },
    ) is None by {
        lemma_run_fail_step(ops, i, j);
    }
    assert(ops.take(ops.len() as int) =~= ops);
}

/// Failure propagates along prefixes.
proof fn lemma_run_fail_step(ops: Seq<ProofOperation>, i: int, j: int)
    requires
        0 <= i < ops.len(),
        i < j <= ops.len(),
        spec_run(ops.take(i + 1), ProofState { stack: Seq::empty(), pairs: Seq::empty() })
            is None,
    ensures
        spec_run(ops.take(j), ProofState { stack: Seq::empty(), pairs: Seq::empty() }) is None,
    decreases j - i,
{
    if j == i + 1 {
    } else {
        lemma_run_fail_step(ops, i, j - 1);
        assert(ops.take(j).drop_last() =~= ops.take(j - 1));
    }
}

/// Reads a digest from its eight big-endian bytes.
fn u64_from_be(h: &Vec<u8>) -> (r: u64)
    requires
        h@.len() == 8,
    ensures
        r == spec_u64_from_be(h@),
{
    ((h[0] as u64) << 56) | ((h[1] as u64) << 48) | ((h[2] as u64) << 40) | ((h[3] as u64) << 32)
        | ((h[4] as u64) << 24) | ((h[5] as u64) << 16) | ((h[6] as u64) << 8) | (h[7] as u64)
}

} // verus!
