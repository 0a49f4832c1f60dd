//! Laws of the session engine, stated over the model's transition functions
//! and proved once and for all: key-ownership uniqueness across arbitrary
//! call sequences, strict monotonicity of the session index, the length of
//! the queued set, the two-session delay of registrations, idempotence of
//! disablement, rejection of duplicate keys, and the register-then-purge
//! round trip.
use vstd::prelude::*;

use crate::Error;
use crate::KeyTypeId;
use crate::SessionIndex;
use crate::ValidatorId;
use crate::model::SessionView;
use crate::model::lemma_insert_sorted_contains;
use crate::model::roster_of;
use crate::model::spec_amalgamate;
use crate::model::spec_apply_keys;
use crate::model::spec_clear_keys;
use crate::model::spec_disable_index;
use crate::model::spec_has_duplicate;
use crate::model::spec_next_roster;
use crate::model::spec_promote;
use crate::model::spec_purge_keys;
use crate::model::spec_rotate;
use crate::model::spec_set_keys;
use crate::model::view_wf;
use crate::store::can_register;
use crate::store::map_lookup;

verus! {

/// Whether validator `w` owns the raw key `k` for key type `t`.
pub open spec fn owns(v: SessionView, t: KeyTypeId, k: Seq<u8>, w: ValidatorId) -> bool {
    v.key_owner.contains_key((t, k)) && v.key_owner[(t, k)] == w
}

/// One key-management call: a registration or a purge, with the inputs the
/// engine receives for it.
pub enum KeyOp {
    /// A `set_keys` call.
    SetKeys {
        /// The submitted bundle.
        keys: Seq<Seq<u8>>,
        /// Whether the ownership proof checked out.
        proof_valid: bool,
        /// The account's validator id, if any.
        validator_of: Option<ValidatorId>,
        /// Whether the account may hold a liveness reference.
        can_inc_consumer: bool,
    },
    /// A `purge_keys` call.
    PurgeKeys {
        /// The account's validator id, if any.
        validator_of: Option<ValidatorId>,
    },
}

/// The state after one key-management call.
pub open spec fn apply_key_op(v: SessionView, op: KeyOp) -> SessionView {
    match op {
        KeyOp::SetKeys { keys, proof_valid, validator_of, can_inc_consumer } => spec_set_keys(
            v,
            keys,
            proof_valid,
            validator_of,
            can_inc_consumer,
        ).0,
        KeyOp::PurgeKeys { validator_of } => spec_purge_keys(v, validator_of).0,
    }
}

/// The state after a sequence of key-management calls, applied in order.
pub open spec fn apply_key_ops(v: SessionView, ops: Seq<KeyOp>) -> SessionView
    decreases ops.len(),
{
    if ops.len() == 0 {
        v
    } else {
        apply_key_op(apply_key_ops(v, ops.drop_last()), ops.last())
    }
}

/// Law: after any sequence of `set_keys` and `purge_keys` calls, no two
/// distinct validators own the same `(key type, raw key)` pair.  Ownership
/// is a keyed map, so a pair never has two bindings; the registration path
/// moreover refuses to rebind a pair held by another validator.
pub proof fn lemma_key_ownership_unique(
    v: SessionView,
    ops: Seq<KeyOp>,
    t: KeyTypeId,
    k: Seq<u8>,
    w1: ValidatorId,
    w2: ValidatorId,
)
    requires
        owns(apply_key_ops(v, ops), t, k, w1),
        owns(apply_key_ops(v, ops), t, k, w2),
    ensures
        w1 == w2,
{
}

/// A registration keeps the snapshot well-formed and touches only the two
/// key stores.
pub proof fn lemma_set_keys_preserves_wf(
    v: SessionView,
    keys: Seq<Seq<u8>>,
    proof_valid: bool,
    validator_of: Option<ValidatorId>,
    can_inc_consumer: bool,
)
    requires
        view_wf(v),
        keys.len() == v.key_type_ids.len(),
    ensures
        ({
            let v1 = spec_set_keys(v, keys, proof_valid, validator_of, can_inc_consumer).0;
            &&& view_wf(v1)
            &&& v1.key_type_ids == v.key_type_ids
            &&& v1.threshold == v.threshold
            &&& v1.validators == v.validators
            &&& v1.current_index == v.current_index
            &&& v1.queued_changed == v.queued_changed
            &&& v1.queued_keys == v.queued_keys
            &&& v1.disabled_validators == v.disabled_validators
        }),
{
}

/// A purge keeps the snapshot well-formed and touches only the two key
/// stores.
pub proof fn lemma_purge_keys_preserves_wf(v: SessionView, validator_of: Option<ValidatorId>)
    requires
        view_wf(v),
    ensures
        ({
            let v1 = spec_purge_keys(v, validator_of).0;
            &&& view_wf(v1)
            &&& v1.key_type_ids == v.key_type_ids
            &&& v1.threshold == v.threshold
            &&& v1.validators == v.validators
            &&& v1.current_index == v.current_index
            &&& v1.queued_changed == v.queued_changed
            &&& v1.queued_keys == v.queued_keys
            &&& v1.disabled_validators == v.disabled_validators
        }),
{
}

/// The state after a sequence of rotations, each given the provider's answer
/// for the session after next.
pub open spec fn apply_rotations(v: SessionView, plans: Seq<Option<Seq<ValidatorId>>>) -> SessionView
    decreases plans.len(),
{
    if plans.len() == 0 {
        v
    } else {
        spec_rotate(apply_rotations(v, plans.drop_last()), plans.last())
    }
}

/// Law: N rotations advance the session index by exactly N — it is never
/// skipped and never rolled back.  From the genesis state, whose index is 0,
/// the index after N rotations is exactly N.
pub proof fn lemma_monotonic_session_index(v: SessionView, plans: Seq<Option<Seq<ValidatorId>>>)
    requires
        v.current_index + plans.len() <= SessionIndex::MAX,
    ensures
        apply_rotations(v, plans).current_index == v.current_index + plans.len(),
    decreases plans.len(),
{
    if plans.len() > 0 {
        lemma_monotonic_session_index(v, plans.drop_last());
    }
}

/// Law: after every rotation the queued set is exactly as long as the next
/// roster — the provider's roster when it gave one, the roster just made
/// active (that is, the previously queued set) when it did not.
pub proof fn lemma_queued_length(v: SessionView, maybe_next: Option<Seq<ValidatorId>>)
    ensures
        spec_rotate(v, maybe_next).queued_keys.len() == spec_next_roster(
            spec_promote(v),
            maybe_next,
        ).len(),
        maybe_next matches Some(roster) ==> spec_rotate(v, maybe_next).queued_keys.len()
            == roster.len(),
        maybe_next is None ==> spec_rotate(v, maybe_next).queued_keys.len()
            == v.queued_keys.len(),
{
}

/// Law: a bundle registered while the session index is `s` is not part of
/// the roster activated by the rotation to `s + 1` — that roster is the set
/// queued before the registration, which the registration leaves untouched.
/// The bundle first appears in the set queued at that rotation (wherever its
/// validator is in the next roster), and that set is what the rotation to
/// `s + 2` activates.
pub proof fn lemma_registration_delay(
    v: SessionView,
    keys: Seq<Seq<u8>>,
    who: ValidatorId,
    can_inc_consumer: bool,
    m1: Option<Seq<ValidatorId>>,
    m2: Option<Seq<ValidatorId>>,
)
    requires
        v.current_index + 2 <= SessionIndex::MAX,
    ensures
        ({
            let (v1, r) = spec_set_keys(v, keys, true, Some(who), can_inc_consumer);
            let v2 = spec_rotate(v1, m1);
            r is Ok ==> {
                &&& v1.queued_keys == v.queued_keys
                &&& v1.current_index == v.current_index
                &&& v2.validators == roster_of(v.queued_keys)
                &&& v2.current_index == v.current_index + 1
                &&& (forall|i: int|
                    0 <= i < v2.queued_keys.len() ==> ((#[trigger] v2.queued_keys[i]).0 == who
                        ==> v2.queued_keys[i].1 == keys))
                &&& spec_rotate(v2, m2).validators == roster_of(v2.queued_keys)
                &&& spec_rotate(v2, m2).current_index == v.current_index + 2
            }
        }),
{
    let (v1, r) = spec_set_keys(v, keys, true, Some(who), can_inc_consumer);
    if r is Ok {
        let p1 = spec_promote(v1);
        let roster = spec_next_roster(p1, m1);
        let v2 = spec_rotate(v1, m1);
        assert(v2.queued_keys == spec_amalgamate(p1, roster));
        assert(p1.next_keys == v1.next_keys);
        assert(v1.next_keys == v.next_keys.insert(who, keys));
        assert(forall|i: int|
            0 <= i < v2.queued_keys.len() ==> ((#[trigger] v2.queued_keys[i]).0 == who
                ==> v2.queued_keys[i].1 == keys)) by {
            assert(forall|i: int|
                0 <= i < roster.len() ==> (#[trigger] spec_amalgamate(p1, roster)[i]) == (
                roster[i],
                crate::model::bundle_of(p1, roster[i]),
                ));
        }
    }
}

/// Law: disabling the same roster position twice in one session has the same
/// effect as disabling it once.  The second call finds the position already
/// in the disabled set: it changes nothing, reports the threshold as not
/// newly reached, and owes the observer no hook.
pub proof fn lemma_disable_idempotent(v: SessionView, i: usize)
    ensures
        ({
            let (v1, fired1, reached1) = spec_disable_index(v, i);
            spec_disable_index(v1, i) == (v1, false, false)
        }),
{
    if !v.disabled_validators.contains(i) {
        lemma_insert_sorted_contains(v.disabled_validators, i);
    }
}

/// Law: when validator `a` owns the raw key `k` for key type `t`, any
/// attempt by a different validator `b` to register a bundle containing `k`
/// at `t`'s position fails with `DuplicatedKey`, and the whole state — in
/// particular `a`'s ownership — is exactly as before.
pub proof fn lemma_duplicate_key_rejected(
    v: SessionView,
    keys: Seq<Seq<u8>>,
    a: ValidatorId,
    b: ValidatorId,
    j: int,
)
    requires
        0 <= j < v.key_type_ids.len(),
        owns(v, v.key_type_ids[j], keys[j], a),
        b != a,
    ensures
        spec_set_keys(v, keys, true, Some(b), true) == (v, Err::<bool, Error>(
            Error::DuplicatedKey,
        )),
        owns(spec_set_keys(v, keys, true, Some(b), true).0, v.key_type_ids[j], keys[j], a),
{
    assert(!can_register(v.key_owner, ((v.key_type_ids[j]), keys[j]), b));
    assert(spec_has_duplicate(v, b, keys));
}

/// Clearing pairs that all differ from a freshly inserted one leaves the
/// inserted binding in place.
proof fn lemma_clear_skips_fresh(
    m: Map<(KeyTypeId, Seq<u8>), ValidatorId>,
    ids: Seq<KeyTypeId>,
    keys: Seq<Seq<u8>>,
    p: (KeyTypeId, Seq<u8>),
    w: ValidatorId,
    n: int,
)
    requires
        forall|j: int| 0 <= j < n ==> (#[trigger] ids[j], keys[j]) != p,
    ensures
        spec_clear_keys(m.insert(p, w), ids, keys, n) == spec_clear_keys(m, ids, keys, n).insert(
            p,
            w,
        ),
    decreases n,
{
    if n > 0 {
        lemma_clear_skips_fresh(m, ids, keys, p, w, n - 1);
        assert((ids[n - 1], keys[n - 1]) != p);
        assert(spec_clear_keys(m, ids, keys, n - 1).insert(p, w).remove((ids[n - 1], keys[n - 1]))
            =~= spec_clear_keys(m, ids, keys, n - 1).remove((ids[n - 1], keys[n - 1])).insert(
            p,
            w,
        ));
    }
}

/// Clearing the first `n` pairs undoes inserting them, when the pairs are
/// pairwise distinct and none of them was present before.
proof fn lemma_clear_undoes_apply(
    owner: Map<(KeyTypeId, Seq<u8>), ValidatorId>,
    ids: Seq<KeyTypeId>,
    keys: Seq<Seq<u8>>,
    who: ValidatorId,
    n: int,
)
    requires
        n <= ids.len(),
        n <= keys.len(),
        forall|i: int, j: int| 0 <= i < j < n ==> ids[i] != ids[j],
        forall|j: int|
            0 <= j < n ==> !owner.contains_key(((#[trigger] ids[j]), keys[j])),
    ensures
        spec_clear_keys(
            spec_apply_keys(owner, ids, keys, None, who, n),
            ids,
            keys,
            n,
        ) == owner,
    decreases n,
{
    if n > 0 {
        let p = (ids[n - 1], keys[n - 1]);
        let prev = spec_apply_keys(owner, ids, keys, None, who, n - 1);
        assert(spec_apply_keys(owner, ids, keys, None, who, n) == prev.insert(p, who));
        assert(forall|j: int| 0 <= j < n - 1 ==> (#[trigger] ids[j], keys[j]) != p) by {
            assert(forall|j: int| 0 <= j < n - 1 ==> (#[trigger] ids[j]) != ids[n - 1]);
        }
        lemma_clear_skips_fresh(prev, ids, keys, p, who, n - 1);
        lemma_clear_undoes_apply(owner, ids, keys, who, n - 1);
        assert(spec_clear_keys(prev.insert(p, who), ids, keys, n - 1).remove(p) =~= owner) by {
            assert(spec_clear_keys(prev.insert(p, who), ids, keys, n - 1) == owner.insert(p, who));
            assert(!owner.contains_key(p));
            assert(owner.insert(p, who).remove(p) =~= owner);
        }
    }
}

/// Law: registering a bundle for a validator with no stored keys and no
/// owned pairs, then purging that validator, leaves the key-ownership index
/// and the validator key store — and with them the whole state — exactly as
/// before either call; only the caller's liveness reference bookkeeping
/// happens outside the engine.
pub proof fn lemma_register_purge_round_trip(
    v: SessionView,
    keys: Seq<Seq<u8>>,
    who: ValidatorId,
)
    requires
        view_wf(v),
        keys.len() == v.key_type_ids.len(),
        !v.next_keys.contains_key(who),
        forall|j: int|
            0 <= j < keys.len() ==> !v.key_owner.contains_key(
                ((#[trigger] v.key_type_ids[j]), keys[j]),
            ),
    ensures
        ({
            let (v1, r1) = spec_set_keys(v, keys, true, Some(who), true);
            let (v2, r2) = spec_purge_keys(v1, Some(who));
            &&& r1 == Ok::<bool, Error>(true)
            &&& r2 == Ok::<(), Error>(())
            &&& v2 == v
        }),
{
    let n = v.key_type_ids.len() as int;
    assert(!spec_has_duplicate(v, who, keys)) by {
        if spec_has_duplicate(v, who, keys) {
            let j = choose|j: int|
                0 <= j < v.key_type_ids.len() && !can_register(
                    v.key_owner,
                    ((#[trigger] v.key_type_ids[j]), keys[j]),
                    who,
                );
            assert(!v.key_owner.contains_key((v.key_type_ids[j], keys[j])));
        }
    }
    let (v1, r1) = spec_set_keys(v, keys, true, Some(who), true);
    assert(map_lookup(v.next_keys, who) == Option::<Seq<Seq<u8>>>::None);
    assert(v1.key_owner == spec_apply_keys(v.key_owner, v.key_type_ids, keys, None, who, n));
    assert(v1.next_keys == v.next_keys.insert(who, keys));
    let (v2, r2) = spec_purge_keys(v1, Some(who));
    assert(v1.next_keys.contains_key(who));
    assert(v1.next_keys[who] == keys);
    lemma_clear_undoes_apply(v.key_owner, v.key_type_ids, keys, who, n);
    assert(v2.key_owner == v.key_owner);
    assert(v2.next_keys =~= v.next_keys) by {
        assert(v1.next_keys.remove(who) =~= v.next_keys);
    }
    assert(v2 =~~= v);
}

} // verus!
