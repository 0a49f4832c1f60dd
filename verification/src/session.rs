//! The session engine: registration and purge of session keys, rotation of
//! the validator set, and disablement of misbehaving validators.
//!
//! Everything the engine persists lives in [`Session`].  The engine is a
//! sequential, single-writer state machine: each operation either completes
//! and reports its effect, or fails and leaves the state exactly as it was.
use vstd::prelude::*;

use crate::AccountId;
use crate::Error;
use crate::Event;
use crate::GenesisError;
use crate::KeyTypeId;
use crate::SessionIndex;
use crate::ValidatorId;
use crate::BlockNumber;
use crate::fraction::Perbill;
use crate::keys::KeyBundle;
use crate::policy::PeriodicSessions;
use crate::policy::spec_next_rotation;
use crate::keys::bytes_eq;
use crate::model::SessionView;
use crate::model::lemma_matches_not_mismatch;
use crate::model::lemma_mismatch_widen;
use crate::model::matches_before;
use crate::model::queued_differs_at;
use crate::model::mismatch_before;
use crate::model::opt_roster_view;
use crate::model::pairs_view;
use crate::model::roster_of;
use crate::model::lemma_insert_sorted_at;
use crate::model::spec_amalgamate;
use crate::model::spec_disable_index;
use crate::model::spec_do_set_keys;
use crate::model::spec_inner_set_keys;
use crate::model::spec_next_roster;
use crate::model::spec_promote;
use crate::model::spec_purge_keys;
use crate::model::spec_clear_keys;
use crate::model::spec_put_keys;
use crate::model::spec_upgrade_owner;
use crate::model::bundles_view;
use crate::model::migrated_pairs;
use crate::model::lemma_upgrade_owner_prefix;
use crate::model::genesis_base;
use crate::model::genesis_roster;
use crate::model::keys_view;
use crate::model::lemma_register_genesis_fail;
use crate::model::spec_genesis;
use crate::model::spec_register_genesis_keys;
use crate::model::spec_queued_changed;
use crate::model::spec_rotate;
use crate::model::spec_set_keys;
use crate::model::view_wf;
use crate::store::KeyOwnershipIndex;
use crate::store::ValidatorKeyStore;
use crate::store::can_register;
use crate::store::unique_keys;
use crate::store::map_lookup;

verus! {

/// A provider of validator sets, consulted at every rotation.  Implemented by
/// the surrounding system (typically by whatever selects validators for an
/// era); the engine claims nothing about its answers.
pub trait SessionManager {
    /// Plan a new session and optionally provide its validator set.  A
    /// returned set counts as an identity change even when its membership is
    /// unchanged, because the economic conditions behind it may have shifted.
    fn new_session(&mut self, new_index: SessionIndex) -> Option<Vec<ValidatorId>>;

    /// End the session with the given index.
    fn end_session(&mut self, end_index: SessionIndex);

    /// Start the session with the given index.
    fn start_session(&mut self, start_index: SessionIndex);
}

impl SessionManager for () {
    fn new_session(&mut self, new_index: SessionIndex) -> Option<Vec<ValidatorId>> {
        None
    }

    fn end_session(&mut self, end_index: SessionIndex) {
    }

    fn start_session(&mut self, start_index: SessionIndex) {
    }
}

/// An observer of session life-cycle events.  Implemented by the consensus
/// components around the engine; the engine claims nothing about its actions.
pub trait SessionHandler {
    /// The validator set of the genesis session.  The same set also serves
    /// the second session, so the first `on_new_session` repeats it.
    fn on_genesis_session(&mut self, validators: &Vec<(ValidatorId, KeyBundle)>);

    /// A session just became active.  `changed` says whether the roster now
    /// active was declared an identity change when it was queued.
    fn on_new_session(
        &mut self,
        changed: bool,
        validators: &Vec<(ValidatorId, KeyBundle)>,
        queued_validators: &Vec<(ValidatorId, KeyBundle)>,
    );

    /// The current session is about to end; the roster may still be shaped.
    fn on_before_session_ending(&mut self);

    /// The validator at this position of the active roster was disabled.
    fn on_disabled(&mut self, validator_index: usize);
}

/// A handler that ignores every notification; useful in tests.
pub struct TestSessionHandler;

impl SessionHandler for TestSessionHandler {
    fn on_genesis_session(&mut self, validators: &Vec<(ValidatorId, KeyBundle)>) {
    }

    fn on_new_session(
        &mut self,
        changed: bool,
        validators: &Vec<(ValidatorId, KeyBundle)>,
        queued_validators: &Vec<(ValidatorId, KeyBundle)>,
    ) {
    }

    fn on_before_session_ending(&mut self) {
    }

    fn on_disabled(&mut self, validator_index: usize) {
    }
}

impl<A: SessionHandler, B: SessionHandler> SessionHandler for (A, B) {
    fn on_genesis_session(&mut self, validators: &Vec<(ValidatorId, KeyBundle)>) {
        self.0.on_genesis_session(validators);
        self.1.on_genesis_session(validators);
    }

    fn on_new_session(
        &mut self,
        changed: bool,
        validators: &Vec<(ValidatorId, KeyBundle)>,
        queued_validators: &Vec<(ValidatorId, KeyBundle)>,
    ) {
        self.0.on_new_session(changed, validators, queued_validators);
        self.1.on_new_session(changed, validators, queued_validators);
    }

    fn on_before_session_ending(&mut self) {
        self.0.on_before_session_ending();
        self.1.on_before_session_ending();
    }

    fn on_disabled(&mut self, validator_index: usize) {
        self.0.on_disabled(validator_index);
        self.1.on_disabled(validator_index);
    }
}

/// Static configuration of the engine.
pub struct Config {
    /// The chain's declared key-type ids, in order, without repetition.
    pub key_type_ids: Vec<KeyTypeId>,
    /// The fraction of validators that is safe to be disabled.
    pub disabled_validators_threshold: Perbill,
}

impl Config {
    /// Well-formedness: the key-type ids are distinct and the threshold
    /// fraction is in range.
    pub open spec fn wf(self) -> bool {
        &&& (forall|i: int, j: int|
            0 <= i < j < self.key_type_ids@.len() ==> self.key_type_ids@[i]
                != self.key_type_ids@[j])
        &&& self.disabled_validators_threshold.wf()
    }

    /// A configuration with the given declared key types and threshold.
    pub fn new(key_type_ids: Vec<KeyTypeId>, disabled_validators_threshold: Perbill) -> (r: Config)
        requires
            forall|i: int, j: int|
                0 <= i < j < key_type_ids@.len() ==> key_type_ids@[i] != key_type_ids@[j],
            disabled_validators_threshold.wf(),
        ensures
            r.wf(),
            r.key_type_ids@ == key_type_ids@,
            r.disabled_validators_threshold == disabled_validators_threshold,
    {
        Config { key_type_ids, disabled_validators_threshold }
    }
}

/// The whole persisted state of the session engine.
pub struct Session {
    /// Static configuration.
    pub config: Config,
    /// The validators of the current session, in order.
    pub validators: Vec<ValidatorId>,
    /// The index of the current session.
    pub current_index: SessionIndex,
    /// Whether the queued roster differs in identity from the active one.
    pub queued_changed: bool,
    /// The validator/bundle pairs that the next rotation activates.
    pub queued_keys: Vec<(ValidatorId, KeyBundle)>,
    /// Positions in `validators` disabled for the rest of the session, sorted.
    pub disabled_validators: Vec<usize>,
    /// The registered ("next") key bundle of each validator.
    pub next_keys: ValidatorKeyStore,
    /// The owner of each `(key type, raw key)` pair.
    pub key_owner: KeyOwnershipIndex,
}

impl View for Session {
    type V = SessionView;

    open spec fn view(&self) -> SessionView {
        SessionView {
            key_type_ids: self.config.key_type_ids@,
            threshold: self.config.disabled_validators_threshold,
            validators: self.validators@,
            current_index: self.current_index,
            queued_changed: self.queued_changed,
            queued_keys: pairs_view(self.queued_keys@),
            disabled_validators: self.disabled_validators@,
            next_keys: self.next_keys@,
            key_owner: self.key_owner@,
        }
    }
}

impl Session {
    /// Well-formedness: the two stores keep their keys unique and the
    /// snapshot satisfies the model's invariants.
    pub open spec fn wf(self) -> bool {
        &&& self.key_owner.wf()
        &&& self.next_keys.wf()
        &&& view_wf(self@)
    }

    /// A fresh engine: session 0, with no validators, no queued keys, no
    /// disabled validators and empty stores.
    pub fn new(config: Config) -> (r: Session)
        requires
            config.wf(),
        ensures
            r.wf(),
            r@.key_type_ids == config.key_type_ids@,
            r@.threshold == config.disabled_validators_threshold,
            r@.validators == Seq::<ValidatorId>::empty(),
            r@.current_index == 0,
            r@.queued_changed == false,
            r@.queued_keys == Seq::<(ValidatorId, Seq<Seq<u8>>)>::empty(),
            r@.disabled_validators == Seq::<usize>::empty(),
            r@.next_keys == Map::<ValidatorId, Seq<Seq<u8>>>::empty(),
            r@.key_owner == Map::<(KeyTypeId, Seq<u8>), ValidatorId>::empty(),
    {
        let r = Session {
            config,
            validators: Vec::new(),
            current_index: 0,
            queued_changed: false,
            queued_keys: Vec::new(),
            disabled_validators: Vec::new(),
            next_keys: ValidatorKeyStore::new(),
            key_owner: KeyOwnershipIndex::new(),
        };
        proof {
            assert(r@.queued_keys =~= Seq::<(ValidatorId, Seq<Seq<u8>>)>::empty());
        }
        r
    }

    /// Bootstrap the engine at genesis.  Registers the chain-configured key
    /// bundles (refusing the whole bootstrap on a duplicate raw key), asks
    /// the provider for the rosters of sessions 0 and 1 (falling back to the
    /// configured validators, then to session 0's roster), refuses an empty
    /// roster for either, queues session 1's roster with its registered
    /// bundles, and tells the observer about the genesis keys before the
    /// provider starts session 0.  The caller must take one liveness
    /// reference per configured account.
    pub fn genesis<M: SessionManager, H: SessionHandler>(
        config: Config,
        initial_keys: Vec<(AccountId, ValidatorId, KeyBundle)>,
        manager: &mut M,
        handler: &mut H,
    ) -> (r: Result<Session, GenesisError>)
        requires
            config.wf(),
            forall|i: int|
                0 <= i < initial_keys@.len() ==> (#[trigger] initial_keys@[i]).2@.len()
                    == config.key_type_ids@.len(),
        ensures
            exists|m0: Option<Seq<ValidatorId>>, m1: Option<Seq<ValidatorId>>|
                genesis_result_view(r) == #[trigger] spec_genesis(
                    config.key_type_ids@,
                    config.disabled_validators_threshold,
                    keys_view(initial_keys@),
                    m0,
                    m1,
                ),
            r matches Ok(s) ==> s.wf() && s@.current_index == 0,
    {
        let ghost kt = config.key_type_ids@;
        let ghost th = config.disabled_validators_threshold;
        let ghost keys_v = keys_view(initial_keys@);
        let ghost base = genesis_base(kt, th);
        let mut s = Session::new(config);
        proof {
            assert(s@ =~~= base);
        }

        let mut i: usize = 0;
        while i < initial_keys.len()
            invariant
                s.wf(),
                i <= initial_keys@.len(),
                keys_v == keys_view(initial_keys@),
                kt == config.key_type_ids@,
                th == config.disabled_validators_threshold,
                base == genesis_base(kt, th),
                kt == s@.key_type_ids,
                forall|j: int|
                    0 <= j < initial_keys@.len() ==> (#[trigger] initial_keys@[j]).2@.len()
                        == kt.len(),
                spec_register_genesis_keys(base, keys_v, i as int) == (s@, true),
            decreases initial_keys@.len() - i,
        {
            let val = initial_keys[i].1;
            let b = initial_keys[i].2.duplicate();
            proof {
                assert(keys_v[i as int] == (
                    initial_keys@[i as int].0,
                    initial_keys@[i as int].1,
                    initial_keys@[i as int].2@,
                ));
            }
            match s.inner_set_keys(val, b) {
                Ok(prior) => {},
                Err(e) => {
                    proof {
                        lemma_register_genesis_fail(
                            base,
                            keys_v,
                            i + 1,
                            keys_v.len() as int,
                        );
                        let m0: Option<Seq<ValidatorId>> = None;
                        let m1: Option<Seq<ValidatorId>> = None;
                        assert(!spec_register_genesis_keys(base, keys_v, keys_v.len() as int).1);
                        assert(genesis_base(config.key_type_ids@, config.disabled_validators_threshold) == base);
                        assert(keys_view(initial_keys@) == keys_v);
                        assert(genesis_result_view(Err(GenesisError::DuplicatedKey))
                            == spec_genesis(
                            config.key_type_ids@,
                            config.disabled_validators_threshold,
                            keys_view(initial_keys@),
                            m0,
                            m1,
                        ));
                    }
                    return Err(GenesisError::DuplicatedKey);
                },
            }
            i = i + 1;
        }

        let ghost v1 = s@;
        proof {
            crate::model::lemma_register_genesis_frame(base, keys_v, keys_v.len() as int);
        }
        let maybe0 = manager.new_session(0);
        let initial_validators_0 = match maybe0 {
            Some(r) => r,
            None => roster_from_keys(&initial_keys),
        };
        if initial_validators_0.len() == 0 {
            proof {
                let m0 = opt_roster_view(maybe0);
                let m1: Option<Seq<ValidatorId>> = None;
                assert(genesis_result_view(Err(GenesisError::EmptyValidatorSet))
                    == spec_genesis(
                    config.key_type_ids@,
                    config.disabled_validators_threshold,
                    keys_view(initial_keys@),
                    m0,
                    m1,
                ));
            }
            return Err(GenesisError::EmptyValidatorSet);
        }
        let maybe1 = manager.new_session(1);
        let initial_validators_1 = match maybe1 {
            Some(r) => r,
            None => clone_ids(&initial_validators_0),
        };
        if initial_validators_1.len() == 0 {
            proof {
                let m0 = opt_roster_view(maybe0);
                let m1 = opt_roster_view(maybe1);
                assert(genesis_result_view(Err(GenesisError::EmptyValidatorSet))
                    == spec_genesis(
                    config.key_type_ids@,
                    config.disabled_validators_threshold,
                    keys_view(initial_keys@),
                    m0,
                    m1,
                ));
            }
            return Err(GenesisError::EmptyValidatorSet);
        }

        let queued = s.amalgamate_for(&initial_validators_1);
        handler.on_genesis_session(&queued);
        s.validators = initial_validators_0;
        s.queued_keys = queued;
        manager.start_session(0);
        proof {
            let m0 = opt_roster_view(maybe0);
            let m1 = opt_roster_view(maybe1);
            let spec_r = spec_genesis(
                config.key_type_ids@,
                config.disabled_validators_threshold,
                keys_view(initial_keys@),
                m0,
                m1,
            );
            assert(spec_r is Ok);
            assert(s@ =~~= spec_r.unwrap());
            assert(genesis_result_view(Ok(s)) == spec_r);
            assert(view_wf(s@)) by {
                let q = s@.queued_keys;
                assert(forall|i: int|
                    0 <= i < q.len() ==> (#[trigger] q[i]).1.len() == s@.key_type_ids.len()) by {
                    assert(forall|i: int|
                        0 <= i < q.len() ==> (#[trigger] q[i]).1 == crate::model::bundle_of(
                            v1,
                            q[i].0,
                        ) && crate::model::bundle_of(v1, q[i].0).len() == s@.key_type_ids.len());
                }
            }
        }
        Ok(s)
    }

    /// The queued set a roster would contribute: each validator paired with
    /// its registered bundle, or the default bundle if it has none.
    fn amalgamate_for(&self, roster: &Vec<ValidatorId>) -> (r: Vec<(ValidatorId, KeyBundle)>)
        requires
            self.wf(),
        ensures
            pairs_view(r@) == spec_amalgamate(self@, roster@),
    {
        let ghost amalg = spec_amalgamate(self@, roster@);
        let mut out: Vec<(ValidatorId, KeyBundle)> = Vec::new();
        let mut i: usize = 0;
        while i < roster.len()
            invariant
                self.wf(),
                amalg == spec_amalgamate(self@, roster@),
                i <= roster@.len(),
                out@.len() == i,
                forall|j: int| 0 <= j < i ==> pairs_view(out@)[j] == amalg[j],
            decreases roster@.len() - i,
        {
            let val = roster[i];
            let k = match self.next_keys.load(val) {
                Some(b) => b,
                None => KeyBundle::default_bundle(self.config.key_type_ids.len()),
            };
            proof {
                assert(k@ == crate::model::bundle_of(self@, val));
                assert(amalg[i as int] == (val, k@));
            }
            out.push((val, k));
            i = i + 1;
        }
        proof {
            assert(pairs_view(out@) =~= amalg);
        }
        (out)
    }

    /// The index of the current session.
    pub fn current_index(&self) -> (r: SessionIndex)
        ensures
            r == self@.current_index,
    {
        self.current_index
    }

    /// The index of the current session; same as [`Session::current_index`].
    pub fn session_index(&self) -> (r: SessionIndex)
        ensures
            r == self@.current_index,
    {
        self.current_index
    }

    /// The ordered validator set of the current session.
    pub fn validators(&self) -> (r: Vec<ValidatorId>)
        ensures
            r@ == self@.validators,
    {
        let mut out: Vec<ValidatorId> = Vec::new();
        let mut i: usize = 0;
        while i < self.validators.len()
            invariant
                i <= self.validators@.len(),
                out@ == self.validators@.subrange(0, i as int),
            decreases self.validators@.len() - i,
        {
            out.push(self.validators[i]);
            proof {
                assert(out@ =~= self.validators@.subrange(0, i + 1 as int));
            }
            i = i + 1;
        }
        proof {
            assert(out@ =~= self.validators@);
        }
        out
    }

    /// The positions of the validators disabled in the current session,
    /// sorted in increasing order.
    pub fn disabled_validators(&self) -> (r: Vec<usize>)
        ensures
            r@ == self@.disabled_validators,
    {
        let mut out: Vec<usize> = Vec::new();
        let mut i: usize = 0;
        while i < self.disabled_validators.len()
            invariant
                i <= self.disabled_validators@.len(),
                out@ == self.disabled_validators@.subrange(0, i as int),
            decreases self.disabled_validators@.len() - i,
        {
            out.push(self.disabled_validators[i]);
            proof {
                assert(out@ =~= self.disabled_validators@.subrange(0, i + 1 as int));
            }
            i = i + 1;
        }
        proof {
            assert(out@ =~= self.disabled_validators@);
        }
        out
    }

    /// The validator/bundle pairs queued for the next session.
    pub fn queued_keys(&self) -> (r: Vec<(ValidatorId, KeyBundle)>)
        ensures
            pairs_view(r@) == self@.queued_keys,
    {
        duplicate_pairs(&self.queued_keys)
    }

    /// The expected length of a session under the given rotation policy.
    pub fn average_session_length(rotation: &PeriodicSessions) -> (r: BlockNumber)
        ensures
            r == rotation.period,
    {
        rotation.average_session_length()
    }

    /// The next block at which a new session is expected.  The engine plans
    /// and rotates sessions in the same step, so this is exactly the
    /// policy's estimate of the next rotation.
    pub fn estimate_next_new_session(rotation: &PeriodicSessions, now: BlockNumber) -> (r: Option<
        BlockNumber,
    >)
        requires
            rotation.wf(),
        ensures
            r == Some(spec_next_rotation(rotation.period, rotation.offset, now)),
    {
        rotation.estimate_next_session_rotation(now)
    }

    /// The validator that owns a `(key type, raw key)` pair, if any.
    pub fn key_owner(&self, id: KeyTypeId, key_data: &Vec<u8>) -> (r: Option<ValidatorId>)
        requires
            self.wf(),
        ensures
            r == map_lookup(self@.key_owner, (id, key_data@)),
    {
        self.key_owner.owner_of(id, key_data)
    }

    /// Whether the validator has a registered key bundle.
    pub fn is_registered(&self, id: ValidatorId) -> (r: bool)
        requires
            self.wf(),
        ensures
            r == self@.next_keys.contains_key(id),
    {
        self.next_keys.load(id).is_some()
    }

    /// Register `keys` for the validator `who`, checking for duplicates.
    /// The whole bundle is refused, with nothing written, if any raw key is
    /// owned by another validator; otherwise ownership of every changed key
    /// is rebound, the bundle is stored, and the previous bundle returned.
    /// Does not touch the queued set or the liveness reference counts.
    pub fn inner_set_keys(&mut self, who: ValidatorId, keys: KeyBundle) -> (r: Result<
        Option<KeyBundle>,
        Error,
    >)
        requires
            old(self).wf(),
            keys@.len() == old(self)@.key_type_ids.len(),
        ensures
            final(self).wf(),
            final(self)@ == spec_inner_set_keys(old(self)@, who, keys@).0,
            inner_result_view(r) == spec_inner_set_keys(old(self)@, who, keys@).1,
    {
        let ghost v0 = old(self)@;
        let n = self.config.key_type_ids.len();
        let old_keys = self.next_keys.load(who);
        let ghost oldb_view = map_lookup(v0.next_keys, who);

        let mut i: usize = 0;
        while i < n
            invariant
                *self == *old(self),
                v0 == old(self)@,
                self.wf(),
                i <= n,
                n == v0.key_type_ids.len(),
                keys@.len() == n,
                forall|j: int|
                    0 <= j < i ==> can_register(
                        v0.key_owner,
                        ((#[trigger] v0.key_type_ids[j]), keys@[j]),
                        who,
                    ),
            decreases n - i,
        {
            let id = self.config.key_type_ids[i];
            match self.key_owner.owner_of(id, &keys.keys[i]) {
                Some(owner) => {
                    if owner != who {
                        proof {
                            assert(!can_register(
                                v0.key_owner,
                                ((#[trigger] v0.key_type_ids[i as int]), keys@[i as int]),
                                who,
                            ));
                            assert(crate::model::spec_has_duplicate(v0, who, keys@));
                        }
                        return Err(Error::DuplicatedKey);
                    }
                },
                None => {},
            }
            i = i + 1;
        }
        proof {
            assert(!crate::model::spec_has_duplicate(v0, who, keys@));
        }

        let mut i: usize = 0;
        while i < n
            invariant
                v0 == old(self)@,
                self.config == old(self).config,
                self.validators == old(self).validators,
                self.current_index == old(self).current_index,
                self.queued_changed == old(self).queued_changed,
                self.queued_keys == old(self).queued_keys,
                self.disabled_validators == old(self).disabled_validators,
                self.next_keys == old(self).next_keys,
                self.key_owner.wf(),
                self.key_owner@ == crate::model::spec_apply_keys(
                    v0.key_owner,
                    v0.key_type_ids,
                    keys@,
                    oldb_view,
                    who,
                    i as int,
                ),
                i <= n,
                n == v0.key_type_ids.len(),
                keys@.len() == n,
                match old_keys {
                    Some(b) => oldb_view == Some(b@) && b@.len() == n,
                    None => oldb_view is None,
                },
            decreases n - i,
        {
            let id = self.config.key_type_ids[i];
            match &old_keys {
                Some(ob) => {
                    if !bytes_eq(&keys.keys[i], &ob.keys[i]) {
                        self.key_owner.clear(id, &ob.keys[i]);
                        self.key_owner.put(id, &keys.keys[i], who);
                    }
                },
                None => {
                    self.key_owner.put(id, &keys.keys[i], who);
                },
            }
            i = i + 1;
        }
        self.next_keys.put(who, keys);
        proof {
            assert(self@ =~~= spec_inner_set_keys(v0, who, keys@).0);
        }
        Ok(old_keys)
    }

    /// Register keys for the account resolved to `validator_of`, after the
    /// caller verified the ownership proof.  `can_inc_consumer` says whether
    /// the account may hold the liveness reference that registered keys
    /// require.  On success the result says whether the caller must take one
    /// such reference (exactly when the validator had no previous bundle).
    pub fn do_set_keys(
        &mut self,
        keys: KeyBundle,
        validator_of: Option<ValidatorId>,
        can_inc_consumer: bool,
    ) -> (r: Result<bool, Error>)
        requires
            old(self).wf(),
            keys@.len() == old(self)@.key_type_ids.len(),
        ensures
            final(self).wf(),
            final(self)@ == spec_do_set_keys(old(self)@, keys@, validator_of, can_inc_consumer).0,
            r == spec_do_set_keys(old(self)@, keys@, validator_of, can_inc_consumer).1,
    {
        let who = match validator_of {
            Some(w) => w,
            None => {
                return Err(Error::NoAssociatedValidatorId);
            },
        };
        if !can_inc_consumer {
            return Err(Error::NoAccount);
        }
        match self.inner_set_keys(who, keys) {
            Ok(old_keys) => Ok(old_keys.is_none()),
            Err(e) => Err(e),
        }
    }

    /// Set the session keys of an account's validator.  `proof_valid` is the
    /// outcome of verifying the ownership proof against the bundle;
    /// `validator_of` the account's validator id, if any; `can_inc_consumer`
    /// whether the account may hold a liveness reference.  On success the
    /// result says whether the caller must take one such reference.  The
    /// change is reflected in the queued set only at the next rotation, and
    /// in the active set at the one after.
    pub fn set_keys(
        &mut self,
        keys: KeyBundle,
        proof_valid: bool,
        validator_of: Option<ValidatorId>,
        can_inc_consumer: bool,
    ) -> (r: Result<bool, Error>)
        requires
            old(self).wf(),
            keys@.len() == old(self)@.key_type_ids.len(),
        ensures
            final(self).wf(),
            final(self)@ == spec_set_keys(
                old(self)@,
                keys@,
                proof_valid,
                validator_of,
                can_inc_consumer,
            ).0,
            r == spec_set_keys(old(self)@, keys@, proof_valid, validator_of, can_inc_consumer).1,
    {
        if !proof_valid {
            return Err(Error::InvalidProof);
        }
        self.do_set_keys(keys, validator_of, can_inc_consumer)
    }

    /// Remove the registered keys of the account resolved to `validator_of`
    /// and clear the ownership entry of every key type of the removed
    /// bundle.  On success the caller must drop the account's liveness
    /// reference.
    pub fn do_purge_keys(&mut self, validator_of: Option<ValidatorId>) -> (r: Result<(), Error>)
        requires
            old(self).wf(),
        ensures
            final(self).wf(),
            final(self)@ == spec_purge_keys(old(self)@, validator_of).0,
            r == spec_purge_keys(old(self)@, validator_of).1,
    {
        let ghost v0 = old(self)@;
        let who = match validator_of {
            Some(w) => w,
            None => {
                return Err(Error::NoAssociatedValidatorId);
            },
        };
        let old_keys = match self.next_keys.take(who) {
            Some(b) => b,
            None => {
                return Err(Error::NoKeys);
            },
        };
        let n = self.config.key_type_ids.len();
        let mut i: usize = 0;
        while i < n
            invariant
                v0 == old(self)@,
                v0.next_keys.contains_key(who),
                self.config == old(self).config,
                self.validators == old(self).validators,
                self.current_index == old(self).current_index,
                self.queued_changed == old(self).queued_changed,
                self.queued_keys == old(self).queued_keys,
                self.disabled_validators == old(self).disabled_validators,
                self.next_keys@ == v0.next_keys.remove(who),
                self.next_keys.wf(),
                self.key_owner.wf(),
                self.key_owner@ == crate::model::spec_clear_keys(
                    v0.key_owner,
                    v0.key_type_ids,
                    v0.next_keys[who],
                    i as int,
                ),
                i <= n,
                n == v0.key_type_ids.len(),
                old_keys@ == v0.next_keys[who],
                old_keys@.len() == n,
            decreases n - i,
        {
            self.key_owner.clear(self.config.key_type_ids[i], &old_keys.keys[i]);
            i = i + 1;
        }
        proof {
            assert(self@ =~~= spec_purge_keys(v0, validator_of).0);
        }
        Ok(())
    }

    /// The next queued set and its changed flag, planned from the provider's
    /// answer: each validator of the next roster paired with its registered
    /// bundle (or the default), compared position by position against the
    /// previously queued bundles to detect an identity change.
    fn plan_queue(&self, maybe_next: &Option<Vec<ValidatorId>>) -> (r: (
        Vec<(ValidatorId, KeyBundle)>,
        bool,
    ))
        requires
            self.wf(),
        ensures
            pairs_view(r.0@) == spec_amalgamate(
                self@,
                spec_next_roster(self@, opt_roster_view(*maybe_next)),
            ),
            r.1 == spec_queued_changed(self@, opt_roster_view(*maybe_next)),
    {
        let ghost mnv = opt_roster_view(*maybe_next);
        let ghost amalg = spec_amalgamate(self@, spec_next_roster(self@, mnv));
        let roster: &Vec<ValidatorId> = match maybe_next {
            Some(v) => v,
            None => &self.validators,
        };
        let init_changed = maybe_next.is_some();
        let mut changed = init_changed;
        let mut out: Vec<(ValidatorId, KeyBundle)> = Vec::new();
        let mut i: usize = 0;
        while i < roster.len()
            invariant
                self.wf(),
                roster@ == spec_next_roster(self@, mnv),
                amalg == spec_amalgamate(self@, spec_next_roster(self@, mnv)),
                init_changed == (mnv is Some),
                i <= roster@.len(),
                out@.len() == i,
                forall|j: int| 0 <= j < i ==> pairs_view(out@)[j] == amalg[j],
                init_changed ==> changed,
                changed && !init_changed ==> mismatch_before(self@, amalg, i as int),
                !changed ==> matches_before(self@, amalg, i as int),
            decreases roster@.len() - i,
        {
            let val = roster[i];
            let k = match self.next_keys.load(val) {
                Some(b) => b,
                None => KeyBundle::default_bundle(self.config.key_type_ids.len()),
            };
            proof {
                assert(k@ == crate::model::bundle_of(self@, val));
                assert(amalg[i as int] == (val, k@));
            }
            if !changed {
                if i < self.queued_keys.len() {
                    if !k.same_keys(&self.queued_keys[i].1) {
                        changed = true;
                        proof {
                            assert(self@.queued_keys[i as int].1 == self.queued_keys@[i as int].1@);
                            assert(mismatch_before(self@, amalg, i + 1)) by {
                                assert(0 <= i < i + 1 && queued_differs_at(self@, amalg, i as int));
                            }
                        }
                    } else {
                        proof {
                            assert(self@.queued_keys[i as int].1 == self.queued_keys@[i as int].1@);
                            assert(!queued_differs_at(self@, amalg, i as int));
                        }
                    }
                } else {
                    changed = true;
                    proof {
                        assert(mismatch_before(self@, amalg, i + 1)) by {
                            assert(i >= self@.queued_keys.len());
                            assert(0 <= i < i + 1 && queued_differs_at(self@, amalg, i as int));
                        }
                    }
                }
            } else {
                proof {
                    if !init_changed {
                        lemma_mismatch_widen(self@, amalg, i as int, i + 1);
                    }
                }
            }
            out.push((val, k));
            i = i + 1;
        }
        proof {
            assert(pairs_view(out@) =~= amalg);
            assert(i == amalg.len());
            if !changed {
                lemma_matches_not_mismatch(self@, amalg, i as int);
            }
        }
        (out, changed)
    }

    /// Move on to the next session.  In strict order: the observer is told
    /// the session is ending, the provider ends session `s`, the queued keys
    /// become active (clearing the disabled set exactly when the queued set
    /// had changed identity), the index becomes `s + 1` and the provider
    /// starts it, the provider is asked for the roster of `s + 2`, the next
    /// queued set and its changed flag are planned and stored, and the
    /// observer is told of the new session with the roster that just became
    /// active.  The flag handed to the observer is the one computed when the
    /// now-active roster was queued, not the freshly planned one.
    pub fn rotate_session<M: SessionManager, H: SessionHandler>(
        &mut self,
        manager: &mut M,
        handler: &mut H,
    ) -> (ev: Event)
        requires
            old(self).wf(),
            old(self).current_index + 2 <= SessionIndex::MAX,
        ensures
            final(self).wf(),
            exists|maybe_next: Option<Seq<ValidatorId>>|
                final(self)@ == spec_rotate(old(self)@, maybe_next),
            final(self)@.current_index == old(self)@.current_index + 1,
            final(self)@.validators == roster_of(old(self)@.queued_keys),
            old(self)@.queued_changed ==> final(self)@.disabled_validators == Seq::<
                usize,
            >::empty(),
            !old(self)@.queued_changed ==> final(self)@.disabled_validators == old(
                self,
            )@.disabled_validators,
            final(self)@.next_keys == old(self)@.next_keys,
            final(self)@.key_owner == old(self)@.key_owner,
            final(self)@.key_type_ids == old(self)@.key_type_ids,
            final(self)@.threshold == old(self)@.threshold,
            ev == Event::NewSession((old(self)@.current_index + 1) as SessionIndex),
    {
        let ghost v0 = old(self)@;
        let session_index = self.current_index;
        let changed = self.queued_changed;

        handler.on_before_session_ending();
        manager.end_session(session_index);

        let session_keys = duplicate_pairs(&self.queued_keys);
        self.validators = validators_of(&self.queued_keys);
        if changed {
            self.disabled_validators = Vec::new();
        }
        let new_index = session_index + 1;
        self.current_index = new_index;
        proof {
            assert(self@ =~~= spec_promote(v0));
        }

        manager.start_session(new_index);
        let maybe_next = manager.new_session(new_index + 1);

        let (queued_amalgamated, next_changed) = self.plan_queue(&maybe_next);
        let ghost mnv = opt_roster_view(maybe_next);
        self.queued_keys = queued_amalgamated;
        self.queued_changed = next_changed;
        proof {
            assert(self@ =~~= spec_rotate(v0, mnv));
            assert(view_wf(self@)) by {
                let q = self@.queued_keys;
                assert(forall|i: int|
                    0 <= i < q.len() ==> (#[trigger] q[i]).1.len() == self@.key_type_ids.len())
                    by {
                    assert(forall|i: int|
                        0 <= i < q.len() ==> (#[trigger] q[i]).1 == crate::model::bundle_of(
                            spec_promote(v0),
                            q[i].0,
                        ) && crate::model::bundle_of(spec_promote(v0), q[i].0).len()
                            == self@.key_type_ids.len());
                }
            }
        }

        handler.on_new_session(changed, &session_keys, &self.queued_keys);
        Event::NewSession(new_index)
    }

    /// Migrate every stored and queued key bundle from the current key
    /// schema to `new_key_type_ids`, applying `upgrade` to each validator's
    /// bundle.  Entry by entry, the ownership entries of the old schema are
    /// cleared and those of the new schema bound — clearing before binding,
    /// since a migrated raw key may coincide with an old one.  The caller
    /// must guarantee that raw keys stay unique across validators under the
    /// new schema; this operation cannot re-validate that.  Meant for
    /// administrative migration out of band, not for block execution.
    pub fn upgrade_keys<F: Fn(ValidatorId, KeyBundle) -> KeyBundle>(
        &mut self,
        new_key_type_ids: Vec<KeyTypeId>,
        upgrade: F,
    )
        requires
            old(self).wf(),
            forall|i: int, j: int|
                0 <= i < j < new_key_type_ids@.len() ==> new_key_type_ids@[i]
                    != new_key_type_ids@[j],
            forall|val: ValidatorId, b: KeyBundle|
                b@.len() == old(self)@.key_type_ids.len() ==> #[trigger] call_requires(
                    upgrade,
                    (val, b),
                ),
            forall|fargs: (ValidatorId, KeyBundle), ret: KeyBundle| #[trigger]
                call_ensures(upgrade, fargs, ret) ==> ret@.len() == new_key_type_ids@.len(),
        ensures
            final(self).wf(),
            final(self)@.key_type_ids == new_key_type_ids@,
            final(self)@.threshold == old(self)@.threshold,
            final(self)@.validators == old(self)@.validators,
            final(self)@.current_index == old(self)@.current_index,
            final(self)@.queued_changed == old(self)@.queued_changed,
            final(self)@.disabled_validators == old(self)@.disabled_validators,
            exists|nb: Seq<KeyBundle>, nargs: Seq<KeyBundle>|
                #![trigger bundles_view(nb), bundles_view(nargs)]
                {
                    &&& nb.len() == old(self).next_keys.pairs().len()
                    &&& nargs.len() == nb.len()
                    &&& (forall|i: int|
                        0 <= i < nb.len() ==> (#[trigger] nargs[i])@ == old(
                            self,
                        ).next_keys.pairs()[i].1 && call_ensures(
                            upgrade,
                            (old(self).next_keys.pairs()[i].0, nargs[i]),
                            nb[i],
                        ))
                    &&& final(self).next_keys.pairs() == migrated_pairs(
                        old(self).next_keys.pairs(),
                        bundles_view(nb),
                    )
                    &&& final(self)@.key_owner == spec_upgrade_owner(
                        old(self)@.key_owner,
                        old(self).next_keys.pairs(),
                        bundles_view(nb),
                        old(self)@.key_type_ids,
                        new_key_type_ids@,
                        nb.len() as int,
                    )
                },
            exists|qb: Seq<KeyBundle>, qargs: Seq<KeyBundle>|
                #![trigger bundles_view(qb), bundles_view(qargs)]
                {
                    &&& qb.len() == old(self)@.queued_keys.len()
                    &&& qargs.len() == qb.len()
                    &&& (forall|i: int|
                        0 <= i < qb.len() ==> (#[trigger] qargs[i])@ == old(
                            self,
                        )@.queued_keys[i].1 && call_ensures(
                            upgrade,
                            (old(self)@.queued_keys[i].0, qargs[i]),
                            qb[i],
                        ))
                    &&& final(self)@.queued_keys == migrated_pairs(
                        old(self)@.queued_keys,
                        bundles_view(qb),
                    )
                },
    {
        let ghost v0 = old(self)@;
        let ghost pairs0 = old(self).next_keys.pairs();
        let n = self.next_keys.entry_count();
        let ghost mut nb: Seq<KeyBundle> = Seq::empty();
        let ghost mut nargs: Seq<KeyBundle> = Seq::empty();
        let mut idx: usize = 0;
        while idx < n
            invariant
                v0 == old(self)@,
                pairs0 == old(self).next_keys.pairs(),
                unique_keys(pairs0),
                view_wf(v0),
                forall|val: ValidatorId, b: KeyBundle|
                    b@.len() == v0.key_type_ids.len() ==> #[trigger] call_requires(
                        upgrade,
                        (val, b),
                    ),
                forall|fargs: (ValidatorId, KeyBundle), ret: KeyBundle| #[trigger]
                    call_ensures(upgrade, fargs, ret) ==> ret@.len() == new_key_type_ids@.len(),
                idx <= n,
                n == pairs0.len(),
                self.config == old(self).config,
                self.validators == old(self).validators,
                self.current_index == old(self).current_index,
                self.queued_changed == old(self).queued_changed,
                self.queued_keys == old(self).queued_keys,
                self.disabled_validators == old(self).disabled_validators,
                self.next_keys.wf(),
                self.key_owner.wf(),
                nb.len() == idx,
                nargs.len() == idx,
                forall|i: int|
                    0 <= i < idx ==> (#[trigger] nargs[i])@ == pairs0[i].1 && call_ensures(
                        upgrade,
                        (pairs0[i].0, nargs[i]),
                        nb[i],
                    ),
                self.next_keys.pairs().len() == pairs0.len(),
                forall|i: int|
                    0 <= i < pairs0.len() ==> (#[trigger] self.next_keys.pairs()[i]).0
                        == pairs0[i].0,
                forall|i: int|
                    0 <= i < idx ==> (#[trigger] self.next_keys.pairs()[i]).1 == nb[i]@,
                forall|i: int|
                    idx <= i < pairs0.len() ==> (#[trigger] self.next_keys.pairs()[i]).1
                        == pairs0[i].1,
                self.key_owner@ == spec_upgrade_owner(
                    v0.key_owner,
                    pairs0,
                    bundles_view(nb),
                    v0.key_type_ids,
                    new_key_type_ids@,
                    idx as int,
                ),
            decreases n - idx,
        {
            let val = self.next_keys.validator_at(idx);
            let oldb = self.next_keys.bundle_at(idx);
            proof {
                assert((#[trigger] self.next_keys.pairs()[idx as int]).1
                    == pairs0[idx as int].1);
                assert(oldb@ == pairs0[idx as int].1);
                crate::store::lemma_assoc_index(pairs0, idx as int);
                assert(v0.next_keys.contains_key(pairs0[idx as int].0));
                assert(v0.next_keys[pairs0[idx as int].0] == pairs0[idx as int].1);
                assert(oldb@.len() == v0.key_type_ids.len());
            }
            let ghost m_entry = self.key_owner@;
            clear_bundle(&mut self.key_owner, &self.config.key_type_ids, &oldb);
            let ghost argb = oldb;
            let newb = upgrade(val, oldb);
            proof {
                assert(newb@.len() == new_key_type_ids@.len());
            }
            put_bundle(&mut self.key_owner, &new_key_type_ids, &newb, val);
            let ghost newb_g = newb;
            self.next_keys.set_bundle_at(idx, newb);
            proof {
                let nb2 = nb.push(newb_g);
                let nargs2 = nargs.push(argb);
                lemma_upgrade_owner_prefix(
                    v0.key_owner,
                    pairs0,
                    bundles_view(nb),
                    bundles_view(nb2),
                    v0.key_type_ids,
                    new_key_type_ids@,
                    idx as int,
                );
                assert(bundles_view(nb2)[idx as int] == newb_g@);
                assert(self.key_owner@ == spec_upgrade_owner(
                    v0.key_owner,
                    pairs0,
                    bundles_view(nb2),
                    v0.key_type_ids,
                    new_key_type_ids@,
                    idx + 1,
                ));
                nb = nb2;
                nargs = nargs2;
            }
            idx = idx + 1;
        }

        let ghost q0 = v0.queued_keys;
        let ghost store1 = self.next_keys;
        let ghost owner1 = self.key_owner;
        let qn = self.queued_keys.len();
        let ghost mut qb: Seq<KeyBundle> = Seq::empty();
        let ghost mut qargs: Seq<KeyBundle> = Seq::empty();
        let mut idx: usize = 0;
        while idx < qn
            invariant
                v0 == old(self)@,
                q0 == v0.queued_keys,
                view_wf(v0),
                forall|val: ValidatorId, b: KeyBundle|
                    b@.len() == v0.key_type_ids.len() ==> #[trigger] call_requires(
                        upgrade,
                        (val, b),
                    ),
                forall|fargs: (ValidatorId, KeyBundle), ret: KeyBundle| #[trigger]
                    call_ensures(upgrade, fargs, ret) ==> ret@.len() == new_key_type_ids@.len(),
                idx <= qn,
                qn == q0.len(),
                self.config == old(self).config,
                self.validators == old(self).validators,
                self.current_index == old(self).current_index,
                self.queued_changed == old(self).queued_changed,
                self.disabled_validators == old(self).disabled_validators,
                self.next_keys == store1,
                self.key_owner == owner1,
                self.queued_keys@.len() == q0.len(),
                qb.len() == idx,
                qargs.len() == idx,
                forall|i: int|
                    0 <= i < idx ==> (#[trigger] qargs[i])@ == q0[i].1 && call_ensures(
                        upgrade,
                        (q0[i].0, qargs[i]),
                        qb[i],
                    ),
                forall|i: int|
                    0 <= i < q0.len() ==> (#[trigger] pairs_view(self.queued_keys@)[i]).0
                        == q0[i].0,
                forall|i: int|
                    0 <= i < idx ==> (#[trigger] pairs_view(self.queued_keys@)[i]).1 == qb[i]@,
                forall|i: int|
                    idx <= i < q0.len() ==> (#[trigger] pairs_view(self.queued_keys@)[i]).1
                        == q0[i].1,
            decreases qn - idx,
        {
            let ghost qk_pre = self.queued_keys@;
            let val = self.queued_keys[idx].0;
            let oldb = self.queued_keys[idx].1.duplicate();
            proof {
                assert((#[trigger] pairs_view(self.queued_keys@)[idx as int]).1
                    == q0[idx as int].1);
                assert(pairs_view(self.queued_keys@)[idx as int].0 == q0[idx as int].0);
                assert(oldb@ == self.queued_keys@[idx as int].1@);
                assert(oldb@ == q0[idx as int].1);
                assert(val == q0[idx as int].0);
                assert(oldb@.len() == v0.key_type_ids.len());
            }
            let ghost argb = oldb;
            let newb = upgrade(val, oldb);
            let ghost newb_g = newb;
            self.queued_keys[idx] = (val, newb);
            proof {
                qb = qb.push(newb_g);
                qargs = qargs.push(argb);
                assert(self.queued_keys@ == qk_pre.update(idx as int, (val, newb_g)));
                assert(forall|i: int|
                    0 <= i < q0.len() && i != idx ==> (#[trigger] pairs_view(
                        self.queued_keys@,
                    )[i]) == pairs_view(qk_pre)[i]);
                assert(pairs_view(self.queued_keys@)[idx as int] == (val, newb_g@));
                assert((#[trigger] qargs[idx as int])@ == q0[idx as int].1 && call_ensures(
                    upgrade,
                    (q0[idx as int].0, qargs[idx as int]),
                    qb[idx as int],
                ));
            }
            idx = idx + 1;
        }

        self.config.key_type_ids = new_key_type_ids;
        proof {
            assert(forall|i: int|
                0 <= i < self.next_keys.pairs().len() ==> #[trigger] self.next_keys.pairs()[i]
                    == migrated_pairs(pairs0, bundles_view(nb))[i]);
            assert(self.next_keys.pairs() =~= migrated_pairs(pairs0, bundles_view(nb)));
            assert(pairs_view(self.queued_keys@) =~= migrated_pairs(q0, bundles_view(qb)));
            assert(bundles_view(nargs).len() == nargs.len());
            assert(bundles_view(qargs).len() == qargs.len());
            assert(view_wf(self@)) by {
                let m = self.next_keys@;
                let p = self.next_keys.pairs();
                assert forall|w: ValidatorId| #[trigger]
                    m.contains_key(w) implies m[w].len() == self@.key_type_ids.len() by {
                    crate::store::lemma_assoc_contains(p, w);
                    let i = choose|i: int| 0 <= i < p.len() && (#[trigger] p[i]).0 == w;
                    crate::store::lemma_assoc_index(p, i);
                    assert(p[i].1 == bundles_view(nb)[i]);
                    assert(nargs[i]@ == pairs0[i].1);
                    assert(call_ensures(upgrade, (pairs0[i].0, nargs[i]), nb[i]));
                    assert(p[i].1.len() == new_key_type_ids@.len());
                }
                assert forall|i: int|
                    0 <= i < self@.queued_keys.len() implies (
                #[trigger] self@.queued_keys[i]).1.len() == self@.key_type_ids.len() by {
                    assert(qargs[i]@ == q0[i].1);
                    assert(call_ensures(upgrade, (q0[i].0, qargs[i]), qb[i]));
                    assert(self@.queued_keys[i].1 == qb[i]@);
                }
            }
        }
    }

    /// Disable the validator at position `i` of the active roster for the
    /// rest of the session.  Idempotent: a position already disabled changes
    /// nothing, and the observer's disablement hook fires exactly once per
    /// newly disabled position.  Returns whether the number of disabled
    /// validators now exceeds the threshold fraction of the roster.
    pub fn disable_index<H: SessionHandler>(&mut self, handler: &mut H, i: usize) -> (r: bool)
        requires
            old(self).wf(),
            i < old(self)@.validators.len(),
        ensures
            final(self).wf(),
            final(self)@ == spec_disable_index(old(self)@, i).0,
            r == spec_disable_index(old(self)@, i).2,
    {
        let ghost v0 = old(self)@;
        let mut pos: usize = 0;
        while pos < self.disabled_validators.len() && self.disabled_validators[pos] < i
            invariant
                *self == *old(self),
                v0 == old(self)@,
                pos <= self.disabled_validators@.len(),
                forall|j: int| 0 <= j < pos ==> self.disabled_validators@[j] < i,
            decreases self.disabled_validators@.len() - pos,
        {
            pos = pos + 1;
        }
        if pos < self.disabled_validators.len() && self.disabled_validators[pos] == i {
            proof {
                assert(v0.disabled_validators[pos as int] == i);
                assert(v0.disabled_validators.contains(i));
            }
            return false;
        }
        proof {
            assert(!v0.disabled_validators.contains(i)) by {
                if v0.disabled_validators.contains(i) {
                    let k = choose|k: int|
                        0 <= k < v0.disabled_validators.len() && v0.disabled_validators[k] == i;
                    if k < pos {
                        assert(v0.disabled_validators[k] < i);
                    } else {
                        assert(pos < v0.disabled_validators.len());
                        assert(v0.disabled_validators[pos as int] > i || k > pos);
                        if k > pos {
                            assert(v0.disabled_validators[pos as int]
                                < v0.disabled_validators[k]);
                        }
                    }
                }
            }
            lemma_insert_sorted_at(v0.disabled_validators, i, pos as int);
        }
        let count = self.validators.len();
        let threshold = self.config.disabled_validators_threshold.mul_nearest(count as u64);
        self.disabled_validators.insert(pos, i);
        let reached = (self.disabled_validators.len() as u64) > threshold;
        handler.on_disabled(i);
        proof {
            assert(self@ =~~= spec_disable_index(v0, i).0);
        }
        reached
    }

    /// Disable the validator with the given id.  Looks up its position in
    /// the active roster and delegates to [`Session::disable_index`]; yields
    /// an error, changing nothing, if the id is not currently active.
    pub fn disable<H: SessionHandler>(&mut self, handler: &mut H, c: &ValidatorId) -> (r: Result<
        bool,
        (),
    >)
        requires
            old(self).wf(),
        ensures
            final(self).wf(),
            r is Err ==> !old(self)@.validators.contains(*c) && *final(self) == *old(self),
            r matches Ok(b) ==> exists|idx: usize|
                0 <= idx < old(self)@.validators.len() && old(self)@.validators[idx as int] == *c
                    && (forall|j: int|
                    0 <= j < idx ==> old(self)@.validators[j] != *c) && final(self)@ == (
                #[trigger] spec_disable_index(old(self)@, idx)).0 && b == spec_disable_index(
                    old(self)@,
                    idx,
                ).2,
    {
        let ghost v0 = old(self)@;
        let mut k: usize = 0;
        while k < self.validators.len() && self.validators[k] != *c
            invariant
                *self == *old(self),
                v0 == old(self)@,
                k <= self.validators@.len(),
                forall|j: int| 0 <= j < k ==> self.validators@[j] != *c,
            decreases self.validators@.len() - k,
        {
            k = k + 1;
        }
        if k == self.validators.len() {
            proof {
                assert(!v0.validators.contains(*c)) by {
                    if v0.validators.contains(*c) {
                        let j = choose|j: int|
                            0 <= j < v0.validators.len() && v0.validators[j] == *c;
                        assert(v0.validators[j] != *c);
                    }
                }
            }
            return Err(());
        }
        let b = self.disable_index(handler, k);
        proof {
            assert(0 <= k < v0.validators.len() && v0.validators[k as int] == *c && (forall|j: int|
                0 <= j < k ==> v0.validators[j] != *c) && self@ == (#[trigger] spec_disable_index(
                v0,
                k,
            )).0 && b == spec_disable_index(v0, k).2);
        }
        Ok(b)
    }

    /// Remove the registered keys of an account's validator; same checks and
    /// obligations as [`Session::do_purge_keys`].
    pub fn purge_keys(&mut self, validator_of: Option<ValidatorId>) -> (r: Result<(), Error>)
        requires
            old(self).wf(),
        ensures
            final(self).wf(),
            final(self)@ == spec_purge_keys(old(self)@, validator_of).0,
            r == spec_purge_keys(old(self)@, validator_of).1,
    {
        self.do_purge_keys(validator_of)
    }
}

/// The model value of an inner registration result.
pub open spec fn inner_result_view(r: Result<Option<KeyBundle>, Error>) -> Result<
    Option<Seq<Seq<u8>>>,
    Error,
> {
    match r {
        Ok(Some(b)) => Ok(Some(b@)),
        Ok(None) => Ok(None),
        Err(e) => Err(e),
    }
}

/// The model value of a genesis result.
pub open spec fn genesis_result_view(r: Result<Session, GenesisError>) -> Result<
    SessionView,
    GenesisError,
> {
    match r {
        Ok(s) => Ok(s@),
        Err(e) => Err(e),
    }
}

/// The validator ids of the chain-configured genesis key entries, in order.
fn roster_from_keys(keys: &Vec<(AccountId, ValidatorId, KeyBundle)>) -> (r: Vec<ValidatorId>)
    ensures
        r@ == genesis_roster(keys_view(keys@)),
{
    let mut out: Vec<ValidatorId> = Vec::new();
    let mut i: usize = 0;
    while i < keys.len()
        invariant
            i <= keys@.len(),
            out@.len() == i,
            forall|j: int| 0 <= j < i ==> out@[j] == keys@[j].1,
        decreases keys@.len() - i,
    {
        out.push(keys[i].1);
        i = i + 1;
    }
    proof {
        assert(out@ =~= genesis_roster(keys_view(keys@)));
    }
    out
}

/// An owned copy of a list of validator ids.
fn clone_ids(v: &Vec<ValidatorId>) -> (r: Vec<ValidatorId>)
    ensures
        r@ == v@,
{
    let mut out: Vec<ValidatorId> = Vec::new();
    let mut i: usize = 0;
    while i < v.len()
        invariant
            i <= v@.len(),
            out@ == v@.subrange(0, i as int),
        decreases v@.len() - i,
    {
        out.push(v[i]);
        proof {
            assert(out@ =~= v@.subrange(0, i + 1 as int));
        }
        i = i + 1;
    }
    proof {
        assert(out@ =~= v@);
    }
    out
}

/// Clear the ownership entry of every key type of a bundle.
fn clear_bundle(owner: &mut KeyOwnershipIndex, ids: &Vec<KeyTypeId>, b: &KeyBundle)
    requires
        old(owner).wf(),
        b@.len() == ids@.len(),
    ensures
        final(owner).wf(),
        final(owner)@ == spec_clear_keys(old(owner)@, ids@, b@, ids@.len() as int),
{
    let n = ids.len();
    let mut j: usize = 0;
    while j < n
        invariant
            owner.wf(),
            j <= n,
            n == ids@.len(),
            b@.len() == n,
            owner@ == spec_clear_keys(old(owner)@, ids@, b@, j as int),
        decreases n - j,
    {
        owner.clear(ids[j], &b.keys[j]);
        j = j + 1;
    }
}

/// Bind the ownership entry of every key type of a bundle to `who`,
/// unconditionally.
fn put_bundle(owner: &mut KeyOwnershipIndex, ids: &Vec<KeyTypeId>, b: &KeyBundle, who: ValidatorId)
    requires
        old(owner).wf(),
        b@.len() == ids@.len(),
    ensures
        final(owner).wf(),
        final(owner)@ == spec_put_keys(old(owner)@, ids@, b@, who, ids@.len() as int),
{
    let n = ids.len();
    let mut j: usize = 0;
    while j < n
        invariant
            owner.wf(),
            j <= n,
            n == ids@.len(),
            b@.len() == n,
            owner@ == spec_put_keys(old(owner)@, ids@, b@, who, j as int),
        decreases n - j,
    {
        owner.put(ids[j], &b.keys[j], who);
        j = j + 1;
    }
}

/// The validators of a list of `(validator, bundle)` pairs, in order.
fn validators_of(v: &Vec<(ValidatorId, KeyBundle)>) -> (r: Vec<ValidatorId>)
    ensures
        r@ == roster_of(pairs_view(v@)),
{
    let mut out: Vec<ValidatorId> = Vec::new();
    let mut i: usize = 0;
    while i < v.len()
        invariant
            i <= v@.len(),
            out@.len() == i,
            forall|j: int| 0 <= j < i ==> out@[j] == pairs_view(v@)[j].0,
        decreases v@.len() - i,
    {
        out.push(v[i].0);
        i = i + 1;
    }
    proof {
        assert(out@ =~= roster_of(pairs_view(v@)));
    }
    out
}

/// An owned copy of a list of `(validator, bundle)` pairs.
pub fn duplicate_pairs(v: &Vec<(ValidatorId, KeyBundle)>) -> (r: Vec<(ValidatorId, KeyBundle)>)
    ensures
        pairs_view(r@) == pairs_view(v@),
{
    let mut out: Vec<(ValidatorId, KeyBundle)> = Vec::new();
    let mut i: usize = 0;
    while i < v.len()
        invariant
            i <= v@.len(),
            out@.len() == i,
            forall|j: int| 0 <= j < i ==> pairs_view(out@)[j] == pairs_view(v@)[j],
        decreases v@.len() - i,
    {
        out.push((v[i].0, v[i].1.duplicate()));
        i = i + 1;
    }
    proof {
        assert(pairs_view(out@) =~= pairs_view(v@));
    }
    out
}

} // verus!
