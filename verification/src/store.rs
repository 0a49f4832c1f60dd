//! The two keyed stores behind the session engine: the key-ownership index,
//! mapping a `(key type, raw key)` pair to the single validator that owns it,
//! and the validator key store, mapping a validator to its registered bundle.
//!
//! Both are association vectors whose keys are kept unique, abstracted in
//! contracts as a [`Map`] of plain values.
use vstd::prelude::*;

use crate::Error;
use crate::KeyTypeId;
use crate::ValidatorId;
use crate::keys::KeyBundle;
use crate::keys::bytes_eq;
use crate::keys::clone_bytes;

verus! {

/// Whether every key occurs at most once among the pairs.
pub open spec fn unique_keys<K, V>(s: Seq<(K, V)>) -> bool {
    forall|i: int, j: int| 0 <= i < j < s.len() ==> (#[trigger] s[i]).0 != (#[trigger] s[j]).0
}

/// The map holding, for each key among the pairs, the value paired with it
/// (the last pairing wins, though the stores keep keys unique).
pub open spec fn assoc_map<K, V>(s: Seq<(K, V)>) -> Map<K, V>
    decreases s.len(),
{
    if s.len() == 0 {
        Map::empty()
    } else {
        assoc_map(s.drop_last()).insert(s.last().0, s.last().1)
    }
}

/// The value a map holds at a key, or nothing where the key is absent.
pub open spec fn map_lookup<K, V>(m: Map<K, V>, k: K) -> Option<V> {
    if m.contains_key(k) {
        Some(m[k])
    } else {
        None
    }
}

/// A key is in the association map exactly when some pair holds it.
pub proof fn lemma_assoc_contains<K, V>(s: Seq<(K, V)>, k: K)
    ensures
        assoc_map(s).contains_key(k) <==> (exists|i: int| 0 <= i < s.len() && (#[trigger] s[i]).0
            == k),
    decreases s.len(),
{
    if s.len() == 0 {
    } else {
        let prefix = s.drop_last();
        lemma_assoc_contains(prefix, k);
        if s.last().0 == k {
            assert(s[s.len() - 1].0 == k);
        } else {
            if exists|i: int| 0 <= i < s.len() && (#[trigger] s[i]).0 == k {
                let i = choose|i: int| 0 <= i < s.len() && (#[trigger] s[i]).0 == k;
                assert(i < s.len() - 1);
                assert(prefix[i].0 == k);
            }
            if exists|i: int| 0 <= i < prefix.len() && (#[trigger] prefix[i]).0 == k {
                let i = choose|i: int| 0 <= i < prefix.len() && (#[trigger] prefix[i]).0 == k;
                assert(s[i].0 == k);
            }
        }
    }
}

/// With unique keys, the association map pairs each key with its own value.
pub proof fn lemma_assoc_index<K, V>(s: Seq<(K, V)>, i: int)
    requires
        unique_keys(s),
        0 <= i < s.len(),
    ensures
        assoc_map(s).contains_key(s[i].0),
        assoc_map(s)[s[i].0] == s[i].1,
    decreases s.len(),
{
    if i == s.len() - 1 {
    } else {
        let prefix = s.drop_last();
        assert(unique_keys(prefix)) by {
            assert(forall|x: int, y: int|
                0 <= x < y < prefix.len() ==> (#[trigger] prefix[x]).0 != (#[trigger] prefix[y]).0)
                by {
                assert(forall|x: int, y: int|
                    0 <= x < y < prefix.len() ==> prefix[x] == s[x] && prefix[y] == s[y]
                        && (#[trigger] s[x]).0 != (#[trigger] s[y]).0);
            }
        }
        lemma_assoc_index(prefix, i);
        assert(s.last().0 != s[i].0);
    }
}

/// Appending a pair inserts its key into the association map.
pub proof fn lemma_assoc_push<K, V>(s: Seq<(K, V)>, k: K, v: V)
    ensures
        assoc_map(s.push((k, v))) == assoc_map(s).insert(k, v),
{
    let t = s.push((k, v));
    assert(t.drop_last() =~= s);
    assert(t.last() == (k, v));
}

/// Replacing the value of the pair at one position re-inserts its key with
/// the new value.
pub proof fn lemma_assoc_update<K, V>(s: Seq<(K, V)>, i: int, v: V)
    requires
        unique_keys(s),
        0 <= i < s.len(),
    ensures
        assoc_map(s.update(i, (s[i].0, v))) == assoc_map(s).insert(s[i].0, v),
    decreases s.len(),
{
    let t = s.update(i, (s[i].0, v));
    if i == s.len() - 1 {
        assert(t.drop_last() =~= s.drop_last());
        assert(t.last() == (s[i].0, v));
        assert(assoc_map(t) =~= assoc_map(s).insert(s[i].0, v));
    } else {
        let prefix = s.drop_last();
        assert(unique_keys(prefix)) by {
            assert(forall|x: int, y: int|
                0 <= x < y < prefix.len() ==> prefix[x] == s[x] && prefix[y] == s[y]
                    && (#[trigger] s[x]).0 != (#[trigger] s[y]).0);
        }
        lemma_assoc_update(prefix, i, v);
        assert(t.drop_last() =~= prefix.update(i, (s[i].0, v)));
        assert(t.last() == s.last());
        assert(s.last().0 != s[i].0);
        assert(assoc_map(t) =~= assoc_map(s).insert(s[i].0, v));
    }
}

/// Removing the pair at one position removes its key from the association map.
pub proof fn lemma_assoc_remove<K, V>(s: Seq<(K, V)>, i: int)
    requires
        unique_keys(s),
        0 <= i < s.len(),
    ensures
        assoc_map(s.remove(i)) == assoc_map(s).remove(s[i].0),
    decreases s.len(),
{
    let t = s.remove(i);
    let prefix = s.drop_last();
    if i == s.len() - 1 {
        assert(t =~= prefix);
        assert(!assoc_map(prefix).contains_key(s[i].0)) by {
            lemma_assoc_contains(prefix, s[i].0);
            assert(forall|x: int|
                0 <= x < prefix.len() ==> (#[trigger] prefix[x]) == s[x] && s[x].0 != s[i].0);
        }
        assert(assoc_map(t) =~= assoc_map(s).remove(s[i].0));
    } else {
        assert(unique_keys(prefix)) by {
            assert(forall|x: int, y: int|
                0 <= x < y < prefix.len() ==> prefix[x] == s[x] && prefix[y] == s[y]
                    && (#[trigger] s[x]).0 != (#[trigger] s[y]).0);
        }
        lemma_assoc_remove(prefix, i);
        assert(t.drop_last() =~= prefix.remove(i));
        assert(t.last() == s.last());
        assert(s.last().0 != s[i].0);
        assert(assoc_map(t) =~= assoc_map(s).remove(s[i].0));
    }
}

/// Whether a key may be bound to `owner`: it is either absent or already his.
pub open spec fn can_register<K>(m: Map<K, ValidatorId>, k: K, owner: ValidatorId) -> bool {
    m.contains_key(k) ==> m[k] == owner
}

/// The store mapping a `(key type, raw key)` pair to the validator that owns
/// it.  At most one validator ever owns a given pair.
pub struct KeyOwnershipIndex {
    entries: Vec<(KeyTypeId, Vec<u8>, ValidatorId)>,
}

impl View for KeyOwnershipIndex {
    type V = Map<(KeyTypeId, Seq<u8>), ValidatorId>;

    open spec fn view(&self) -> Map<(KeyTypeId, Seq<u8>), ValidatorId> {
        assoc_map(self.pairs())
    }
}

impl KeyOwnershipIndex {
    /// The stored pairs, in insertion order.
    pub closed spec fn pairs(self) -> Seq<((KeyTypeId, Seq<u8>), ValidatorId)> {
        self.entries@.map_values(
            |e: (KeyTypeId, Vec<u8>, ValidatorId)| ((e.0, e.1@), e.2),
        )
    }

    /// Well-formedness: no `(key type, raw key)` pair is stored twice.
    pub open spec fn wf(self) -> bool {
        unique_keys(self.pairs())
    }

    /// An empty index.
    pub fn new() -> (r: KeyOwnershipIndex)
        ensures
            r.wf(),
            r@ == Map::<(KeyTypeId, Seq<u8>), ValidatorId>::empty(),
    {
        let r = KeyOwnershipIndex { entries: Vec::new() };
        proof {
            assert(r.pairs() =~= Seq::<((KeyTypeId, Seq<u8>), ValidatorId)>::empty());
        }
        r
    }

    /// The position of the entry for a pair, if one is stored.
    fn find(&self, id: KeyTypeId, key: &Vec<u8>) -> (r: Option<usize>)
        ensures
            match r {
                Some(i) => i < self.pairs().len() && self.pairs()[i as int].0 == (id, key@),
                None => forall|j: int|
                    0 <= j < self.pairs().len() ==> (#[trigger] self.pairs()[j]).0 != (id, key@),
            },
    {
        let mut i: usize = 0;
        while i < self.entries.len()
            invariant
                i <= self.entries@.len(),
                self.pairs().len() == self.entries@.len(),
                forall|j: int| 0 <= j < i ==> (#[trigger] self.pairs()[j]).0 != (id, key@),
            decreases self.entries@.len() - i,
        {
            if self.entries[i].0 == id && bytes_eq(&self.entries[i].1, key) {
                return Some(i);
            }
            i = i + 1;
        }
        None
    }

    /// The validator that owns the pair, if any.  A pure lookup.
    pub fn owner_of(&self, id: KeyTypeId, key: &Vec<u8>) -> (r: Option<ValidatorId>)
        requires
            self.wf(),
        ensures
            r == map_lookup(self@, (id, key@)),
    {
        match self.find(id, key) {
            Some(i) => {
                proof {
                    lemma_assoc_index(self.pairs(), i as int);
                }
                Some(self.entries[i].2)
            },
            None => {
                proof {
                    lemma_assoc_contains(self.pairs(), (id, key@));
                }
                None
            },
        }
    }

    /// Bind the pair to `owner` unconditionally, replacing any present owner.
    pub fn put(&mut self, id: KeyTypeId, key: &Vec<u8>, owner: ValidatorId)
        requires
            old(self).wf(),
        ensures
            final(self).wf(),
            final(self)@ == old(self)@.insert((id, key@), owner),
    {
        match self.find(id, key) {
            Some(i) => {
                proof {
                    lemma_assoc_update(self.pairs(), i as int, owner);
                }
                self.entries[i] = (id, clone_bytes(key), owner);
                proof {
                    assert(self.pairs() =~= old(self).pairs().update(
                        i as int,
                        (old(self).pairs()[i as int].0, owner),
                    ));
                    assert(old(self).pairs()[i as int].0 == (id, key@));
                    assert(unique_keys(self.pairs())) by {
                        assert(forall|x: int|
                            0 <= x < self.pairs().len() ==> (#[trigger] self.pairs()[x]).0 == old(
                                self,
                            ).pairs()[x].0);
                    }
                }
            },
            None => {
                self.entries.push((id, clone_bytes(key), owner));
                proof {
                    assert(self.pairs() =~= old(self).pairs().push(((id, key@), owner)));
                    lemma_assoc_push(old(self).pairs(), (id, key@), owner);
                    assert(unique_keys(self.pairs())) by {
                        assert(forall|x: int|
                            0 <= x < old(self).pairs().len() ==> (#[trigger] self.pairs()[x]) == old(
                                self,
                            ).pairs()[x]);
                    }
                }
            },
        }
    }

    /// Remove the entry for the pair, if any.  Idempotent.
    pub fn clear(&mut self, id: KeyTypeId, key: &Vec<u8>)
        requires
            old(self).wf(),
        ensures
            final(self).wf(),
            final(self)@ == old(self)@.remove((id, key@)),
    {
        match self.find(id, key) {
            Some(i) => {
                proof {
                    lemma_assoc_remove(self.pairs(), i as int);
                    old(self).pairs().remove_ensures(i as int);
                }
                let _removed = self.entries.remove(i);
                proof {
                    assert(self.pairs() =~= old(self).pairs().remove(i as int));
                    assert(unique_keys(self.pairs())) by {
                        let t = self.pairs();
                        let s = old(self).pairs();
                        assert(forall|x: int, y: int| 0 <= x < y < t.len() ==> (#[trigger] t[x]).0
                            != (#[trigger] t[y]).0) by {
                            assert(forall|x: int|
                                0 <= x < t.len() ==> (#[trigger] t[x]) == (if x < i {
                                    s[x]
                                } else {
                                    s[x + 1]
                                }));
                        }
                    }
                }
            },
            None => {
                proof {
                    lemma_assoc_contains(self.pairs(), (id, key@));
                    assert(self@ =~= self@.remove((id, key@)));
                }
            },
        }
    }

    /// Bind the pair to `owner` if it is absent or already his; refuse with
    /// [`Error::DuplicatedKey`], mutating nothing, if another validator owns it.
    pub fn register(&mut self, id: KeyTypeId, key: &Vec<u8>, owner: ValidatorId) -> (r: Result<
        (),
        Error,
    >)
        requires
            old(self).wf(),
        ensures
            final(self).wf(),
            r == Ok::<(), Error>(()) <==> can_register(old(self)@, (id, key@), owner),
            r is Ok ==> final(self)@ == old(self)@.insert((id, key@), owner),
            r is Err ==> r == Err::<(), Error>(Error::DuplicatedKey) && *final(self) == *old(self),
    {
        match self.owner_of(id, key) {
            Some(present) => {
                if present == owner {
                    self.put(id, key, owner);
                    Ok(())
                } else {
                    Err(Error::DuplicatedKey)
                }
            },
            None => {
                self.put(id, key, owner);
                Ok(())
            },
        }
    }
}

/// The store mapping a validator to its registered key bundle ("next keys").
pub struct ValidatorKeyStore {
    entries: Vec<(ValidatorId, KeyBundle)>,
}

impl View for ValidatorKeyStore {
    type V = Map<ValidatorId, Seq<Seq<u8>>>;

    open spec fn view(&self) -> Map<ValidatorId, Seq<Seq<u8>>> {
        assoc_map(self.pairs())
    }
}

impl ValidatorKeyStore {
    /// The stored pairs, in insertion order.
    pub closed spec fn pairs(self) -> Seq<(ValidatorId, Seq<Seq<u8>>)> {
        self.entries@.map_values(|e: (ValidatorId, KeyBundle)| (e.0, e.1@))
    }

    /// Well-formedness: no validator is stored twice.
    pub open spec fn wf(self) -> bool {
        unique_keys(self.pairs())
    }

    /// An empty store.
    pub fn new() -> (r: ValidatorKeyStore)
        ensures
            r.wf(),
            r@ == Map::<ValidatorId, Seq<Seq<u8>>>::empty(),
            r.pairs() == Seq::<(ValidatorId, Seq<Seq<u8>>)>::empty(),
    {
        let r = ValidatorKeyStore { entries: Vec::new() };
        proof {
            assert(r.pairs() =~= Seq::<(ValidatorId, Seq<Seq<u8>>)>::empty());
        }
        r
    }

    /// The position of the entry for a validator, if one is stored.
    fn find(&self, v: ValidatorId) -> (r: Option<usize>)
        ensures
            match r {
                Some(i) => i < self.pairs().len() && self.pairs()[i as int].0 == v,
                None => forall|j: int|
                    0 <= j < self.pairs().len() ==> (#[trigger] self.pairs()[j]).0 != v,
            },
    {
        let mut i: usize = 0;
        while i < self.entries.len()
            invariant
                i <= self.entries@.len(),
                self.pairs().len() == self.entries@.len(),
                forall|j: int| 0 <= j < i ==> (#[trigger] self.pairs()[j]).0 != v,
            decreases self.entries@.len() - i,
        {
            if self.entries[i].0 == v {
                return Some(i);
            }
            i = i + 1;
        }
        None
    }

    /// The registered bundle of a validator, if any.  No validation is done
    /// here; the registration operations enforce every invariant.
    pub fn load(&self, v: ValidatorId) -> (r: Option<KeyBundle>)
        requires
            self.wf(),
        ensures
            match r {
                Some(b) => map_lookup(self@, v) == Some(b@),
                None => map_lookup(self@, v) == Option::<Seq<Seq<u8>>>::None,
            },
    {
        match self.find(v) {
            Some(i) => {
                proof {
                    lemma_assoc_index(self.pairs(), i as int);
                }
                Some(self.entries[i].1.duplicate())
            },
            None => {
                proof {
                    lemma_assoc_contains(self.pairs(), v);
                }
                None
            },
        }
    }

    /// Store `bundle` as the registered bundle of `v`, replacing any present one.
    pub fn put(&mut self, v: ValidatorId, bundle: KeyBundle)
        requires
            old(self).wf(),
        ensures
            final(self).wf(),
            final(self)@ == old(self)@.insert(v, bundle@),
    {
        let ghost b_view = bundle@;
        match self.find(v) {
            Some(i) => {
                proof {
                    lemma_assoc_update(self.pairs(), i as int, b_view);
                }
                self.entries[i] = (v, bundle);
                proof {
                    assert(self.pairs() =~= old(self).pairs().update(
                        i as int,
                        (old(self).pairs()[i as int].0, b_view),
                    ));
                    assert(unique_keys(self.pairs())) by {
                        assert(forall|x: int|
                            0 <= x < self.pairs().len() ==> (#[trigger] self.pairs()[x]).0 == old(
                                self,
                            ).pairs()[x].0);
                    }
                }
            },
            None => {
                self.entries.push((v, bundle));
                proof {
                    assert(self.pairs() =~= old(self).pairs().push((v, b_view)));
                    lemma_assoc_push(old(self).pairs(), v, b_view);
                    assert(unique_keys(self.pairs())) by {
                        assert(forall|x: int|
                            0 <= x < old(self).pairs().len() ==> (#[trigger] self.pairs()[x]) == old(
                                self,
                            ).pairs()[x]);
                    }
                }
            },
        }
    }

    /// Remove and return the registered bundle of `v`, if any.
    pub fn take(&mut self, v: ValidatorId) -> (r: Option<KeyBundle>)
        requires
            old(self).wf(),
        ensures
            final(self).wf(),
            match r {
                Some(b) => map_lookup(old(self)@, v) == Some(b@) && final(self)@ == old(
                    self,
                )@.remove(v),
                None => map_lookup(old(self)@, v) == Option::<Seq<Seq<u8>>>::None && *final(self)
                    == *old(self),
            },
    {
        match self.find(v) {
            Some(i) => {
                proof {
                    lemma_assoc_index(self.pairs(), i as int);
                    lemma_assoc_remove(self.pairs(), i as int);
                    old(self).pairs().remove_ensures(i as int);
                }
                let removed = self.entries.remove(i);
                proof {
                    assert(self.pairs() =~= old(self).pairs().remove(i as int));
                    assert(unique_keys(self.pairs())) by {
                        let t = self.pairs();
                        let s = old(self).pairs();
                        assert(forall|x: int, y: int| 0 <= x < y < t.len() ==> (#[trigger] t[x]).0
                            != (#[trigger] t[y]).0) by {
                            assert(forall|x: int|
                                0 <= x < t.len() ==> (#[trigger] t[x]) == (if x < i {
                                    s[x]
                                } else {
                                    s[x + 1]
                                }));
                        }
                    }
                }
                Some(removed.1)
            },
            None => {
                proof {
                    lemma_assoc_contains(self.pairs(), v);
                }
                None
            },
        }
    }

    /// How many validators have a registered bundle.
    pub fn entry_count(&self) -> (r: usize)
        ensures
            r == self.pairs().len(),
    {
        self.entries.len()
    }

    /// The validator of the entry at a position.
    pub fn validator_at(&self, i: usize) -> (r: ValidatorId)
        requires
            i < self.pairs().len(),
        ensures
            r == self.pairs()[i as int].0,
    {
        self.entries[i].0
    }

    /// An owned copy of the bundle of the entry at a position.
    pub fn bundle_at(&self, i: usize) -> (r: KeyBundle)
        requires
            i < self.pairs().len(),
        ensures
            r@ == self.pairs()[i as int].1,
    {
        self.entries[i].1.duplicate()
    }

    /// Replace the bundle of the entry at a position, keeping its validator.
    pub fn set_bundle_at(&mut self, i: usize, bundle: KeyBundle)
        requires
            old(self).wf(),
            i < old(self).pairs().len(),
        ensures
            final(self).wf(),
            final(self).pairs() == old(self).pairs().update(
                i as int,
                (old(self).pairs()[i as int].0, bundle@),
            ),
            final(self)@ == old(self)@.insert(old(self).pairs()[i as int].0, bundle@),
    {
        let ghost b_view = bundle@;
        let v = self.entries[i].0;
        proof {
            lemma_assoc_update(self.pairs(), i as int, b_view);
        }
        self.entries[i] = (v, bundle);
        proof {
            assert(self.pairs() =~= old(self).pairs().update(
                i as int,
                (old(self).pairs()[i as int].0, b_view),
            ));
            assert(unique_keys(self.pairs())) by {
                assert(forall|x: int|
                    0 <= x < self.pairs().len() ==> (#[trigger] self.pairs()[x]).0 == old(
                        self,
                    ).pairs()[x].0);
            }
        }
    }
}

} // verus!
