//! Registration and purge of session keys: the error paths, the global
//! no-duplicate-key rule, and the register-then-purge round trip.
use pallet_session::Error;
use pallet_session::fraction::Perbill;
use pallet_session::keys::KeyBundle;
use pallet_session::session::Config;
use pallet_session::session::Session;
use pallet_session::store::KeyOwnershipIndex;
use pallet_session::store::ValidatorKeyStore;

fn bundle(parts: &[&[u8]]) -> KeyBundle {
    let mut keys: Vec<Vec<u8>> = Vec::new();
    for p in parts {
        keys.push(p.to_vec());
    }
    KeyBundle::new(keys)
}

fn two_type_session() -> Session {
    let config = Config::new(vec![1, 2], Perbill::from_rational(1, 3));
    Session::new(config)
}

#[test]
fn set_keys_rejects_invalid_proof() {
    let mut s = two_type_session();
    let r = s.set_keys(bundle(&[b"a", b"b"]), false, Some(10), true);
    assert_eq!(r, Err(Error::InvalidProof));
    assert_eq!(s.key_owner(1, &b"a".to_vec()), None);
}

#[test]
fn set_keys_rejects_unresolved_account() {
    let mut s = two_type_session();
    let r = s.set_keys(bundle(&[b"a", b"b"]), true, None, true);
    assert_eq!(r, Err(Error::NoAssociatedValidatorId));
}

#[test]
fn set_keys_rejects_ineligible_account() {
    let mut s = two_type_session();
    let r = s.set_keys(bundle(&[b"a", b"b"]), true, Some(10), false);
    assert_eq!(r, Err(Error::NoAccount));
}

#[test]
fn set_keys_registers_ownership_and_reports_reference() {
    let mut s = two_type_session();
    // A fresh validator: the caller owes one liveness reference.
    assert_eq!(s.set_keys(bundle(&[b"a", b"b"]), true, Some(10), true), Ok(true));
    assert!(s.is_registered(10));
    assert_eq!(s.key_owner(1, &b"a".to_vec()), Some(10));
    assert_eq!(s.key_owner(2, &b"b".to_vec()), Some(10));
    assert_eq!(s.key_owner(1, &b"b".to_vec()), None);
    // Replacing its keys owes no further reference and rebinds ownership.
    assert_eq!(s.set_keys(bundle(&[b"c", b"b"]), true, Some(10), true), Ok(false));
    assert_eq!(s.key_owner(1, &b"a".to_vec()), None);
    assert_eq!(s.key_owner(1, &b"c".to_vec()), Some(10));
    assert_eq!(s.key_owner(2, &b"b".to_vec()), Some(10));
}

#[test]
fn duplicate_key_rejected_and_owner_unchanged() {
    let mut s = two_type_session();
    assert_eq!(s.set_keys(bundle(&[b"ka", b"kb"]), true, Some(10), true), Ok(true));
    // Validator 20 tries to take 10's raw key "ka" for key type 1.
    let r = s.set_keys(bundle(&[b"ka", b"other"]), true, Some(20), true);
    assert_eq!(r, Err(Error::DuplicatedKey));
    assert_eq!(s.key_owner(1, &b"ka".to_vec()), Some(10));
    // Nothing of the refused bundle was written.
    assert_eq!(s.key_owner(2, &b"other".to_vec()), None);
    assert!(!s.is_registered(20));
}

#[test]
fn same_owner_may_resubmit_keys() {
    let mut s = two_type_session();
    assert_eq!(s.set_keys(bundle(&[b"ka", b"kb"]), true, Some(10), true), Ok(true));
    assert_eq!(s.set_keys(bundle(&[b"ka", b"kb"]), true, Some(10), true), Ok(false));
    assert_eq!(s.key_owner(1, &b"ka".to_vec()), Some(10));
}

#[test]
fn purge_keys_requires_registered_keys() {
    let mut s = two_type_session();
    assert_eq!(s.purge_keys(None), Err(Error::NoAssociatedValidatorId));
    assert_eq!(s.purge_keys(Some(10)), Err(Error::NoKeys));
}

#[test]
fn register_then_purge_round_trip() {
    let mut s = two_type_session();
    assert_eq!(s.set_keys(bundle(&[b"x", b"y"]), true, Some(30), true), Ok(true));
    assert_eq!(s.set_keys(bundle(&[b"p", b"q"]), true, Some(40), true), Ok(true));
    assert_eq!(s.purge_keys(Some(40)), Ok(()));
    // Validator 40's ownership entries and stored bundle are gone...
    assert!(!s.is_registered(40));
    assert_eq!(s.key_owner(1, &b"p".to_vec()), None);
    assert_eq!(s.key_owner(2, &b"q".to_vec()), None);
    // ...and validator 30's are exactly as before.
    assert!(s.is_registered(30));
    assert_eq!(s.key_owner(1, &b"x".to_vec()), Some(30));
    assert_eq!(s.key_owner(2, &b"y".to_vec()), Some(30));
    // The freed keys can be registered again by someone else.
    assert_eq!(s.set_keys(bundle(&[b"p", b"q"]), true, Some(50), true), Ok(true));
    assert_eq!(s.key_owner(1, &b"p".to_vec()), Some(50));
}

#[test]
fn upgrade_keys_migrates_schema_and_ownership() {
    let mut s = two_type_session();
    assert_eq!(s.set_keys(bundle(&[b"a1", b"a2"]), true, Some(10), true), Ok(true));
    assert_eq!(s.set_keys(bundle(&[b"b1", b"b2"]), true, Some(20), true), Ok(true));
    // Migrate from the two-type schema to a single key type 7, whose raw key
    // is the first raw key of the old bundle with a marker byte appended.
    s.upgrade_keys(vec![7], |_val: u64, old: KeyBundle| {
        let mut first = old.keys[0].clone();
        first.push(0xff);
        KeyBundle::new(vec![first])
    });
    // Old ownership entries are cleared, new ones bound under key type 7.
    assert_eq!(s.key_owner(1, &b"a1".to_vec()), None);
    assert_eq!(s.key_owner(2, &b"a2".to_vec()), None);
    assert_eq!(s.key_owner(7, &b"a1\xff".to_vec()), Some(10));
    assert_eq!(s.key_owner(7, &b"b1\xff".to_vec()), Some(20));
    assert!(s.is_registered(10));
    assert!(s.is_registered(20));
}

#[test]
fn ownership_index_register_clear_and_lookup() {
    let mut idx = KeyOwnershipIndex::new();
    assert_eq!(idx.owner_of(1, &b"k".to_vec()), None);
    assert_eq!(idx.register(1, &b"k".to_vec(), 10), Ok(()));
    assert_eq!(idx.owner_of(1, &b"k".to_vec()), Some(10));
    // The same owner may re-register; another owner is refused.
    assert_eq!(idx.register(1, &b"k".to_vec(), 10), Ok(()));
    assert_eq!(idx.register(1, &b"k".to_vec(), 20), Err(Error::DuplicatedKey));
    assert_eq!(idx.owner_of(1, &b"k".to_vec()), Some(10));
    // Clearing is unconditional and idempotent.
    idx.clear(1, &b"k".to_vec());
    idx.clear(1, &b"k".to_vec());
    assert_eq!(idx.owner_of(1, &b"k".to_vec()), None);
    assert_eq!(idx.register(1, &b"k".to_vec(), 20), Ok(()));
    assert_eq!(idx.owner_of(1, &b"k".to_vec()), Some(20));
}

#[test]
fn validator_key_store_load_put_take() {
    let mut store = ValidatorKeyStore::new();
    assert!(store.load(10).is_none());
    store.put(10, bundle(&[b"a"]));
    assert!(store.load(10).unwrap().same_keys(&bundle(&[b"a"])));
    // `put` replaces; `take` removes and returns the stored bundle.
    store.put(10, bundle(&[b"b"]));
    let taken = store.take(10).unwrap();
    assert!(taken.same_keys(&bundle(&[b"b"])));
    assert!(store.load(10).is_none());
    assert!(store.take(10).is_none());
}

#[test]
fn key_bundle_helpers() {
    let b = bundle(&[b"a", b""]);
    assert_eq!(b.key_count(), 2);
    let c = b.duplicate();
    assert!(b.same_keys(&c));
    assert!(!b.same_keys(&bundle(&[b"a", b"x"])));
    assert!(!b.same_keys(&bundle(&[b"a"])));
    let d = KeyBundle::default_bundle(2);
    assert_eq!(d.key_count(), 2);
    assert!(d.same_keys(&bundle(&[b"", b""])));
}
