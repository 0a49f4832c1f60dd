//! The mathematical model of the session engine: a ghost snapshot of the
//! whole persisted state, well-formedness of a snapshot, and the transition
//! functions that the executable operations are proved to implement.
use vstd::prelude::*;

use crate::AccountId;
use crate::Error;
use crate::GenesisError;
use crate::KeyTypeId;
use crate::SessionIndex;
use crate::ValidatorId;
use crate::fraction::Perbill;
use crate::keys::KeyBundle;
use crate::keys::spec_default_bundle;
use crate::store::can_register;
use crate::store::map_lookup;

verus! {

/// A snapshot of everything the session engine persists.
#[verifier::ext_equal]
pub struct SessionView {
    /// The chain's declared key-type ids, in order.
    pub key_type_ids: Seq<KeyTypeId>,
    /// The fraction of the roster that may be disabled before the threshold
    /// is reported as reached.
    pub threshold: Perbill,
    /// The validators of the current session, in order.
    pub validators: Seq<ValidatorId>,
    /// The index of the current session.
    pub current_index: SessionIndex,
    /// Whether the queued roster differs in identity from the active one.
    pub queued_changed: bool,
    /// The validator/bundle pairs that the next rotation activates.
    pub queued_keys: Seq<(ValidatorId, Seq<Seq<u8>>)>,
    /// Positions in `validators` disabled for the rest of the session, sorted.
    pub disabled_validators: Seq<usize>,
    /// The registered ("next") key bundle of each validator.
    pub next_keys: Map<ValidatorId, Seq<Seq<u8>>>,
    /// The owner of each `(key type, raw key)` pair.
    pub key_owner: Map<(KeyTypeId, Seq<u8>), ValidatorId>,
}

/// The view of a sequence of `(validator, bundle)` pairs.
pub open spec fn pairs_view(v: Seq<(ValidatorId, KeyBundle)>) -> Seq<(ValidatorId, Seq<Seq<u8>>)> {
    v.map_values(|p: (ValidatorId, KeyBundle)| (p.0, p.1@))
}

/// The validators of a queued set, in order, without their bundles.
pub open spec fn roster_of(q: Seq<(ValidatorId, Seq<Seq<u8>>)>) -> Seq<ValidatorId> {
    Seq::new(q.len(), |i: int| q[i].0)
}

/// The model value of a provider's optional roster.
pub open spec fn opt_roster_view(o: Option<Vec<ValidatorId>>) -> Option<Seq<ValidatorId>> {
    match o {
        Some(v) => Some(v@),
        None => None,
    }
}

/// Well-formedness of a snapshot: the declared key types are distinct, the
/// threshold fraction is in range, the disabled positions are strictly
/// sorted, and every stored or queued bundle has one raw key per declared
/// key type.
pub open spec fn view_wf(v: SessionView) -> bool {
    &&& (forall|i: int, j: int|
        0 <= i < j < v.key_type_ids.len() ==> v.key_type_ids[i] != v.key_type_ids[j])
    &&& v.threshold.wf()
    &&& strictly_sorted(v.disabled_validators)
    &&& (forall|w: ValidatorId| #[trigger]
        v.next_keys.contains_key(w) ==> v.next_keys[w].len() == v.key_type_ids.len())
    &&& (forall|i: int|
        0 <= i < v.queued_keys.len() ==> (#[trigger] v.queued_keys[i]).1.len()
            == v.key_type_ids.len())
}

/// The bundle a validator would contribute to the queued set: its registered
/// bundle, or the default bundle if it has none.
pub open spec fn bundle_of(v: SessionView, val: ValidatorId) -> Seq<Seq<u8>> {
    if v.next_keys.contains_key(val) {
        v.next_keys[val]
    } else {
        spec_default_bundle(v.key_type_ids.len())
    }
}

/// The first phase of a rotation: the queued validators become active, the
/// disabled set is cleared exactly when the queued set had changed identity,
/// and the session index moves up by one.
pub open spec fn spec_promote(v: SessionView) -> SessionView
    recommends
        v.current_index < SessionIndex::MAX,
{
    SessionView {
        validators: roster_of(v.queued_keys),
        disabled_validators: if v.queued_changed {
            Seq::empty()
        } else {
            v.disabled_validators
        },
        current_index: (v.current_index + 1) as SessionIndex,
        ..v
    }
}

/// The roster the next session is planned from: the provider's answer, or
/// the roster just made active when the provider declined to give one.
pub open spec fn spec_next_roster(
    v: SessionView,
    maybe_next: Option<Seq<ValidatorId>>,
) -> Seq<ValidatorId> {
    match maybe_next {
        Some(roster) => roster,
        None => v.validators,
    }
}

/// The queued set built from a roster: each validator paired with its
/// registered bundle, or the default bundle if it has none.
pub open spec fn spec_amalgamate(v: SessionView, roster: Seq<ValidatorId>) -> Seq<
    (ValidatorId, Seq<Seq<u8>>),
> {
    Seq::new(roster.len(), |i: int| (roster[i], bundle_of(v, roster[i])))
}

/// Whether position `j` of the freshly built queued set differs from the
/// previously queued bundle at the same position, or has no previously
/// queued counterpart.
pub open spec fn queued_differs_at(
    v: SessionView,
    amalg: Seq<(ValidatorId, Seq<Seq<u8>>)>,
    j: int,
) -> bool {
    j >= v.queued_keys.len() || amalg[j].1 != v.queued_keys[j].1
}

/// Whether some position among the first `upto` of the freshly built queued
/// set differs from what was previously queued there.
pub open spec fn mismatch_before(
    v: SessionView,
    amalg: Seq<(ValidatorId, Seq<Seq<u8>>)>,
    upto: int,
) -> bool {
    exists|j: int| 0 <= j < upto && #[trigger] queued_differs_at(v, amalg, j)
}

/// Whether the first `upto` positions of the freshly built queued set all
/// repeat the previously queued bundle at the same position.
pub open spec fn matches_before(
    v: SessionView,
    amalg: Seq<(ValidatorId, Seq<Seq<u8>>)>,
    upto: int,
) -> bool {
    forall|j: int| 0 <= j < upto ==> !(#[trigger] queued_differs_at(v, amalg, j))
}

/// A mismatch among the first `n1` positions is one among the first `n2`.
pub proof fn lemma_mismatch_widen(
    v: SessionView,
    amalg: Seq<(ValidatorId, Seq<Seq<u8>>)>,
    n1: int,
    n2: int,
)
    requires
        mismatch_before(v, amalg, n1),
        n1 <= n2,
    ensures
        mismatch_before(v, amalg, n2),
{
    let j = choose|j: int| 0 <= j < n1 && #[trigger] queued_differs_at(v, amalg, j);
    assert(0 <= j < n2 && queued_differs_at(v, amalg, j));
}

/// Positions that all repeat the previously queued bundles hold no mismatch.
pub proof fn lemma_matches_not_mismatch(
    v: SessionView,
    amalg: Seq<(ValidatorId, Seq<Seq<u8>>)>,
    n: int,
)
    requires
        matches_before(v, amalg, n),
    ensures
        !mismatch_before(v, amalg, n),
{
    if mismatch_before(v, amalg, n) {
        let j = choose|j: int| 0 <= j < n && #[trigger] queued_differs_at(v, amalg, j);
        assert(!queued_differs_at(v, amalg, j));
    }
}

/// Whether the freshly queued set counts as an identity change: always when
/// the provider supplied a roster (economic conditions may have shifted even
/// under equal membership), otherwise exactly when some position's bundle
/// differs from the previously queued bundle at the same position, or has no
/// previously queued counterpart.
pub open spec fn spec_queued_changed(v: SessionView, maybe_next: Option<Seq<ValidatorId>>) -> bool {
    let amalg = spec_amalgamate(v, spec_next_roster(v, maybe_next));
    maybe_next is Some || mismatch_before(v, amalg, amalg.len() as int)
}

/// The second phase of a rotation: the next queued set and its changed flag
/// are stored.
pub open spec fn spec_queue(v: SessionView, maybe_next: Option<Seq<ValidatorId>>) -> SessionView {
    SessionView {
        queued_keys: spec_amalgamate(v, spec_next_roster(v, maybe_next)),
        queued_changed: spec_queued_changed(v, maybe_next),
        ..v
    }
}

/// One full rotation, given the provider's answer for the session after next.
pub open spec fn spec_rotate(v: SessionView, maybe_next: Option<Seq<ValidatorId>>) -> SessionView {
    spec_queue(spec_promote(v), maybe_next)
}

/// Whether some raw key of the submitted bundle is already owned by a
/// validator other than `who`.
pub open spec fn spec_has_duplicate(
    v: SessionView,
    who: ValidatorId,
    keys: Seq<Seq<u8>>,
) -> bool {
    exists|i: int|
        0 <= i < v.key_type_ids.len() && !can_register(
            v.key_owner,
            ((#[trigger] v.key_type_ids[i]), keys[i]),
            who,
        )
}

/// The ownership map after the first `n` key types of a successful
/// registration are written: for each key type whose raw key differs from
/// the previous bundle (or is newly set), the old entry is cleared and the
/// new one bound to `who`; an unchanged raw key is left untouched.
pub open spec fn spec_apply_keys(
    owner: Map<(KeyTypeId, Seq<u8>), ValidatorId>,
    ids: Seq<KeyTypeId>,
    newb: Seq<Seq<u8>>,
    oldb: Option<Seq<Seq<u8>>>,
    who: ValidatorId,
    n: int,
) -> Map<(KeyTypeId, Seq<u8>), ValidatorId>
    decreases n,
{
    if n <= 0 {
        owner
    } else {
        let m = spec_apply_keys(owner, ids, newb, oldb, who, n - 1);
        let i = n - 1;
        match oldb {
            Some(ob) => if newb[i] == ob[i] {
                m
            } else {
                m.remove((ids[i], ob[i])).insert((ids[i], newb[i]), who)
            },
            None => m.insert((ids[i], newb[i]), who),
        }
    }
}

/// The ownership map after the first `n` key types of a purged bundle are
/// cleared.
pub open spec fn spec_clear_keys(
    owner: Map<(KeyTypeId, Seq<u8>), ValidatorId>,
    ids: Seq<KeyTypeId>,
    oldb: Seq<Seq<u8>>,
    n: int,
) -> Map<(KeyTypeId, Seq<u8>), ValidatorId>
    decreases n,
{
    if n <= 0 {
        owner
    } else {
        spec_clear_keys(owner, ids, oldb, n - 1).remove((ids[n - 1], oldb[n - 1]))
    }
}

/// The ownership map after the first `n` key types of a bundle are bound to
/// `who`, unconditionally.
pub open spec fn spec_put_keys(
    owner: Map<(KeyTypeId, Seq<u8>), ValidatorId>,
    ids: Seq<KeyTypeId>,
    b: Seq<Seq<u8>>,
    who: ValidatorId,
    n: int,
) -> Map<(KeyTypeId, Seq<u8>), ValidatorId>
    decreases n,
{
    if n <= 0 {
        owner
    } else {
        spec_put_keys(owner, ids, b, who, n - 1).insert((ids[n - 1], b[n - 1]), who)
    }
}

/// The ownership map after the first `n` stored entries are migrated to a
/// new key schema: entry by entry, the old schema's pairs of the old bundle
/// are cleared and the new schema's pairs of the migrated bundle are bound
/// to the entry's validator.  Clearing before binding is essential, since a
/// migrated raw key may collide with an old one.
pub open spec fn spec_upgrade_owner(
    owner: Map<(KeyTypeId, Seq<u8>), ValidatorId>,
    entries: Seq<(ValidatorId, Seq<Seq<u8>>)>,
    newbs: Seq<Seq<Seq<u8>>>,
    old_ids: Seq<KeyTypeId>,
    new_ids: Seq<KeyTypeId>,
    n: int,
) -> Map<(KeyTypeId, Seq<u8>), ValidatorId>
    decreases n,
{
    if n <= 0 {
        owner
    } else {
        let m = spec_upgrade_owner(owner, entries, newbs, old_ids, new_ids, n - 1);
        let cleared = spec_clear_keys(m, old_ids, entries[n - 1].1, old_ids.len() as int);
        spec_put_keys(cleared, new_ids, newbs[n - 1], entries[n - 1].0, new_ids.len() as int)
    }
}

/// The model values of a sequence of bundles.
pub open spec fn bundles_view(s: Seq<KeyBundle>) -> Seq<Seq<Seq<u8>>> {
    Seq::new(s.len(), |i: int| s[i]@)
}

/// Entries with each bundle replaced by its migrated counterpart.
pub open spec fn migrated_pairs(
    entries: Seq<(ValidatorId, Seq<Seq<u8>>)>,
    newbs: Seq<Seq<Seq<u8>>>,
) -> Seq<(ValidatorId, Seq<Seq<u8>>)> {
    Seq::new(entries.len(), |i: int| (entries[i].0, newbs[i]))
}

/// The migrated ownership map depends only on the first `n` new bundles.
pub proof fn lemma_upgrade_owner_prefix(
    owner: Map<(KeyTypeId, Seq<u8>), ValidatorId>,
    entries: Seq<(ValidatorId, Seq<Seq<u8>>)>,
    newbs1: Seq<Seq<Seq<u8>>>,
    newbs2: Seq<Seq<Seq<u8>>>,
    old_ids: Seq<KeyTypeId>,
    new_ids: Seq<KeyTypeId>,
    n: int,
)
    requires
        forall|i: int| 0 <= i < n ==> newbs1[i] == newbs2[i],
    ensures
        spec_upgrade_owner(owner, entries, newbs1, old_ids, new_ids, n) == spec_upgrade_owner(
            owner,
            entries,
            newbs2,
            old_ids,
            new_ids,
            n,
        ),
    decreases n,
{
    if n > 0 {
        lemma_upgrade_owner_prefix(owner, entries, newbs1, newbs2, old_ids, new_ids, n - 1);
    }
}

/// The inner registration step: reject the whole bundle if any raw key is
/// owned by another validator, otherwise rebind ownership of every changed
/// key and store the bundle; the previous bundle, if any, is reported.
pub open spec fn spec_inner_set_keys(v: SessionView, who: ValidatorId, keys: Seq<Seq<u8>>) -> (
    SessionView,
    Result<Option<Seq<Seq<u8>>>, Error>,
) {
    if spec_has_duplicate(v, who, keys) {
        (v, Err(Error::DuplicatedKey))
    } else {
        let oldb = map_lookup(v.next_keys, who);
        let owner2 = spec_apply_keys(
            v.key_owner,
            v.key_type_ids,
            keys,
            oldb,
            who,
            v.key_type_ids.len() as int,
        );
        (
            SessionView { key_owner: owner2, next_keys: v.next_keys.insert(who, keys), ..v },
            Ok(oldb),
        )
    }
}

/// The registration operation below the proof check: resolve the account,
/// confirm it may hold a reference, then run the inner step.  On success the
/// result says whether the caller must take one liveness reference for the
/// account (exactly when the validator had no previous bundle).
pub open spec fn spec_do_set_keys(
    v: SessionView,
    keys: Seq<Seq<u8>>,
    validator_of: Option<ValidatorId>,
    can_inc_consumer: bool,
) -> (SessionView, Result<bool, Error>) {
    match validator_of {
        None => (v, Err(Error::NoAssociatedValidatorId)),
        Some(who) => if !can_inc_consumer {
            (v, Err(Error::NoAccount))
        } else {
            let (v2, r) = spec_inner_set_keys(v, who, keys);
            match r {
                Ok(oldb) => (v2, Ok(oldb is None)),
                Err(e) => (v2, Err(e)),
            }
        },
    }
}

/// The full registration operation: verify the ownership proof first.
pub open spec fn spec_set_keys(
    v: SessionView,
    keys: Seq<Seq<u8>>,
    proof_valid: bool,
    validator_of: Option<ValidatorId>,
    can_inc_consumer: bool,
) -> (SessionView, Result<bool, Error>) {
    if !proof_valid {
        (v, Err(Error::InvalidProof))
    } else {
        spec_do_set_keys(v, keys, validator_of, can_inc_consumer)
    }
}

/// The purge operation: resolve the account, remove its stored bundle, and
/// clear the ownership entry of every key type of the removed bundle.  On
/// success the caller must drop one liveness reference for the account.
pub open spec fn spec_purge_keys(v: SessionView, validator_of: Option<ValidatorId>) -> (
    SessionView,
    Result<(), Error>,
) {
    match validator_of {
        None => (v, Err(Error::NoAssociatedValidatorId)),
        Some(who) => if !v.next_keys.contains_key(who) {
            (v, Err(Error::NoKeys))
        } else {
            let oldb = v.next_keys[who];
            let owner2 = spec_clear_keys(
                v.key_owner,
                v.key_type_ids,
                oldb,
                v.key_type_ids.len() as int,
            );
            (
                SessionView { key_owner: owner2, next_keys: v.next_keys.remove(who), ..v },
                Ok(()),
            )
        },
    }
}

/// Whether the elements are in strictly increasing order.
pub open spec fn strictly_sorted(s: Seq<usize>) -> bool {
    forall|i: int, j: int| 0 <= i < j < s.len() ==> s[i] < s[j]
}

/// The state a fresh engine starts from: session 0, nothing registered.
pub open spec fn genesis_base(key_type_ids: Seq<KeyTypeId>, threshold: Perbill) -> SessionView {
    SessionView {
        key_type_ids,
        threshold,
        validators: Seq::empty(),
        current_index: 0,
        queued_changed: false,
        queued_keys: Seq::empty(),
        disabled_validators: Seq::empty(),
        next_keys: Map::empty(),
        key_owner: Map::empty(),
    }
}

/// The model values of the chain-configured genesis key entries.
pub open spec fn keys_view(s: Seq<(AccountId, ValidatorId, KeyBundle)>) -> Seq<
    (AccountId, ValidatorId, Seq<Seq<u8>>),
> {
    Seq::new(s.len(), |i: int| (s[i].0, s[i].1, s[i].2@))
}

/// The validator ids of the chain-configured genesis key entries, in order.
pub open spec fn genesis_roster(keys: Seq<(AccountId, ValidatorId, Seq<Seq<u8>>)>) -> Seq<
    ValidatorId,
> {
    Seq::new(keys.len(), |i: int| keys[i].1)
}

/// The state after the first `n` genesis key entries are registered, and
/// whether all of them were accepted.  Registration stops at the first
/// duplicate.
pub open spec fn spec_register_genesis_keys(
    v: SessionView,
    keys: Seq<(AccountId, ValidatorId, Seq<Seq<u8>>)>,
    n: int,
) -> (SessionView, bool)
    decreases n,
{
    if n <= 0 {
        (v, true)
    } else {
        let (v1, ok) = spec_register_genesis_keys(v, keys, n - 1);
        if !ok {
            (v1, false)
        } else {
            let (v2, r) = spec_inner_set_keys(v1, keys[n - 1].1, keys[n - 1].2);
            (v2, r is Ok)
        }
    }
}

/// Once genesis registration has failed, it stays failed.
pub proof fn lemma_register_genesis_fail(
    v: SessionView,
    keys: Seq<(AccountId, ValidatorId, Seq<Seq<u8>>)>,
    n1: int,
    n2: int,
)
    requires
        !spec_register_genesis_keys(v, keys, n1).1,
        n1 <= n2,
    ensures
        !spec_register_genesis_keys(v, keys, n2).1,
    decreases n2 - n1,
{
    if n1 < n2 {
        lemma_register_genesis_fail(v, keys, n1, n2 - 1);
    }
}

/// Genesis registration only touches the two key stores.
pub proof fn lemma_register_genesis_frame(
    v: SessionView,
    keys: Seq<(AccountId, ValidatorId, Seq<Seq<u8>>)>,
    n: int,
)
    ensures
        ({
            let (v1, ok) = spec_register_genesis_keys(v, keys, n);
            &&& v1.key_type_ids == v.key_type_ids
            &&& v1.threshold == v.threshold
            &&& v1.validators == v.validators
            &&& v1.current_index == v.current_index
            &&& v1.queued_changed == v.queued_changed
            &&& v1.queued_keys == v.queued_keys
            &&& v1.disabled_validators == v.disabled_validators
        }),
    decreases n,
{
    if n > 0 {
        lemma_register_genesis_frame(v, keys, n - 1);
    }
}

/// The genesis bootstrap: register the chain-configured keys (refusing the
/// whole bootstrap on a duplicate), take the provider's roster for session 0
/// (falling back to the configured validators) and for session 1 (falling
/// back to session 0's roster), refuse an empty roster for either, and queue
/// session 1's roster with its registered bundles.
pub open spec fn spec_genesis(
    key_type_ids: Seq<KeyTypeId>,
    threshold: Perbill,
    keys: Seq<(AccountId, ValidatorId, Seq<Seq<u8>>)>,
    m0: Option<Seq<ValidatorId>>,
    m1: Option<Seq<ValidatorId>>,
) -> Result<SessionView, GenesisError> {
    let base = genesis_base(key_type_ids, threshold);
    let (v1, ok) = spec_register_genesis_keys(base, keys, keys.len() as int);
    if !ok {
        Err(GenesisError::DuplicatedKey)
    } else {
        let iv0 = match m0 {
            Some(r) => r,
            None => genesis_roster(keys),
        };
        if iv0.len() == 0 {
            Err(GenesisError::EmptyValidatorSet)
        } else {
            let iv1 = match m1 {
                Some(r) => r,
                None => iv0,
            };
            if iv1.len() == 0 {
                Err(GenesisError::EmptyValidatorSet)
            } else {
                Ok(
                    SessionView {
                        validators: iv0,
                        queued_keys: spec_amalgamate(v1, iv1),
                        ..v1
                    },
                )
            }
        }
    }
}

/// A sorted sequence with one more element, inserted before the first
/// element that is at least as large.
pub open spec fn spec_insert_sorted(s: Seq<usize>, x: usize) -> Seq<usize>
    decreases s.len(),
{
    if s.len() == 0 {
        seq![x]
    } else if x <= s[0] {
        seq![x] + s
    } else {
        seq![s[0]] + spec_insert_sorted(s.drop_first(), x)
    }
}

/// Inserting into a sorted sequence at the position where every earlier
/// element is smaller and the element there (if any) larger places the new
/// element exactly there, and keeps the sequence strictly sorted.
pub proof fn lemma_insert_sorted_at(s: Seq<usize>, x: usize, pos: int)
    requires
        strictly_sorted(s),
        0 <= pos <= s.len(),
        forall|j: int| 0 <= j < pos ==> s[j] < x,
        pos < s.len() ==> s[pos] > x,
    ensures
        spec_insert_sorted(s, x) == s.insert(pos, x),
        strictly_sorted(s.insert(pos, x)),
    decreases s.len(),
{
    s.insert_ensures(pos, x);
    if s.len() == 0 {
        assert(spec_insert_sorted(s, x) =~= s.insert(pos, x));
    } else if x <= s[0] {
        assert(pos == 0);
        assert(spec_insert_sorted(s, x) =~= s.insert(0, x));
    } else {
        assert(s[0] < x);
        assert(pos >= 1);
        let rest = s.drop_first();
        assert(strictly_sorted(rest)) by {
            assert(forall|i: int, j: int|
                0 <= i < j < rest.len() ==> rest[i] == s[i + 1] && rest[j] == s[j + 1] && s[i + 1]
                    < s[j + 1]);
        }
        assert(forall|j: int| 0 <= j < pos - 1 ==> rest[j] == s[j + 1] && s[j + 1] < x);
        assert(pos - 1 < rest.len() ==> rest[pos - 1] == s[pos] && s[pos] > x);
        lemma_insert_sorted_at(rest, x, pos - 1);
        rest.insert_ensures(pos - 1, x);
        assert(spec_insert_sorted(s, x) =~= s.insert(pos, x));
    }
    assert(strictly_sorted(s.insert(pos, x))) by {
        let t = s.insert(pos, x);
        assert(forall|i: int, j: int| 0 <= i < j < t.len() ==> t[i] < t[j]) by {
            assert(forall|i: int|
                0 <= i < t.len() ==> (#[trigger] t[i]) == (if i < pos {
                    s[i]
                } else if i == pos {
                    x
                } else {
                    s[i - 1]
                }));
        }
    }
}

/// The inserted element is in the result.
pub proof fn lemma_insert_sorted_contains(s: Seq<usize>, x: usize)
    ensures
        spec_insert_sorted(s, x).contains(x),
    decreases s.len(),
{
    if s.len() == 0 {
        assert(spec_insert_sorted(s, x)[0] == x);
    } else if x <= s[0] {
        assert(spec_insert_sorted(s, x)[0] == x);
    } else {
        lemma_insert_sorted_contains(s.drop_first(), x);
        let rest = spec_insert_sorted(s.drop_first(), x);
        let k = choose|k: int| 0 <= k < rest.len() && rest[k] == x;
        assert(spec_insert_sorted(s, x)[k + 1] == x);
    }
}

/// The number of disabled validators above which the threshold counts as
/// reached: the threshold fraction of the roster size, rounded to nearest.
pub open spec fn spec_disable_threshold(v: SessionView) -> int {
    (v.threshold.parts as int * v.validators.len() + 500_000_000) / 1_000_000_000
}

/// Disabling by position: a position already disabled changes nothing and
/// fires no hook; a new position is inserted in sorted order, the hook is
/// owed exactly once, and the threshold check counts the grown set.  The
/// results are the new snapshot, whether the hook fires, and whether the
/// threshold is reached.
pub open spec fn spec_disable_index(v: SessionView, i: usize) -> (SessionView, bool, bool) {
    if v.disabled_validators.contains(i) {
        (v, false, false)
    } else {
        let d2 = spec_insert_sorted(v.disabled_validators, i);
        (
            SessionView { disabled_validators: d2, ..v },
            true,
            d2.len() > spec_disable_threshold(v),
        )
    }
}

} // verus!
