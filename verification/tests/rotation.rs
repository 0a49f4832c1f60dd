//! Genesis bootstrap, session rotation, the two-session delay of key
//! registrations, and disablement of validators.
use pallet_session::Event;
use pallet_session::GenesisError;
use pallet_session::fraction::Perbill;
use pallet_session::keys::KeyBundle;
use pallet_session::session::Config;
use pallet_session::session::Session;
use pallet_session::session::SessionHandler;
use pallet_session::session::SessionManager;
use pallet_session::session::TestSessionHandler;
use pallet_session::author::FindAccountFromAuthorIndex;

fn bundle(parts: &[&[u8]]) -> KeyBundle {
    let mut keys: Vec<Vec<u8>> = Vec::new();
    for p in parts {
        keys.push(p.to_vec());
    }
    KeyBundle::new(keys)
}

fn config() -> Config {
    Config::new(vec![1], Perbill::from_rational(1, 3))
}

/// A provider that hands out scripted rosters, one per `new_session` call.
struct ScriptedManager {
    answers: Vec<Option<Vec<u64>>>,
    ended: Vec<u32>,
    started: Vec<u32>,
}

impl ScriptedManager {
    fn new(answers: Vec<Option<Vec<u64>>>) -> ScriptedManager {
        ScriptedManager { answers, ended: Vec::new(), started: Vec::new() }
    }
}

impl SessionManager for ScriptedManager {
    fn new_session(&mut self, _new_index: u32) -> Option<Vec<u64>> {
        if self.answers.is_empty() {
            None
        } else {
            self.answers.remove(0)
        }
    }

    fn end_session(&mut self, end_index: u32) {
        self.ended.push(end_index);
    }

    fn start_session(&mut self, start_index: u32) {
        self.started.push(start_index);
    }
}

/// An observer that records everything it is told.
struct Recorder {
    genesis_rosters: Vec<Vec<(u64, Vec<Vec<u8>>)>>,
    new_sessions: Vec<(bool, Vec<(u64, Vec<Vec<u8>>)>, Vec<(u64, Vec<Vec<u8>>)>)>,
    before_endings: usize,
    disabled: Vec<usize>,
}

impl Recorder {
    fn new() -> Recorder {
        Recorder {
            genesis_rosters: Vec::new(),
            new_sessions: Vec::new(),
            before_endings: 0,
            disabled: Vec::new(),
        }
    }
}

fn snapshot(pairs: &Vec<(u64, KeyBundle)>) -> Vec<(u64, Vec<Vec<u8>>)> {
    let mut out = Vec::new();
    for p in pairs {
        out.push((p.0, p.1.keys.clone()));
    }
    out
}

impl SessionHandler for Recorder {
    fn on_genesis_session(&mut self, validators: &Vec<(u64, KeyBundle)>) {
        self.genesis_rosters.push(snapshot(validators));
    }

    fn on_new_session(
        &mut self,
        changed: bool,
        validators: &Vec<(u64, KeyBundle)>,
        queued_validators: &Vec<(u64, KeyBundle)>,
    ) {
        self.new_sessions.push((changed, snapshot(validators), snapshot(queued_validators)));
    }

    fn on_before_session_ending(&mut self) {
        self.before_endings += 1;
    }

    fn on_disabled(&mut self, validator_index: usize) {
        self.disabled.push(validator_index);
    }
}

fn genesis_three() -> (Session, ScriptedManager, Recorder) {
    let mut mgr = ScriptedManager::new(vec![]);
    let mut rec = Recorder::new();
    let initial = vec![
        (100, 10, bundle(&[b"k10"])),
        (200, 20, bundle(&[b"k20"])),
        (300, 30, bundle(&[b"k30"])),
    ];
    let s = Session::genesis(config(), initial, &mut mgr, &mut rec).unwrap();
    (s, mgr, rec)
}

#[test]
fn genesis_falls_back_to_configured_validators() {
    let (s, mgr, rec) = genesis_three();
    assert_eq!(s.current_index(), 0);
    assert_eq!(s.validators(), vec![10, 20, 30]);
    assert_eq!(mgr.started, vec![0]);
    assert_eq!(rec.genesis_rosters.len(), 1);
    assert_eq!(
        rec.genesis_rosters[0],
        vec![
            (10, vec![b"k10".to_vec()]),
            (20, vec![b"k20".to_vec()]),
            (30, vec![b"k30".to_vec()])
        ]
    );
    assert_eq!(s.key_owner(1, &b"k20".to_vec()), Some(20));
}

#[test]
fn genesis_rejects_empty_roster() {
    let mut mgr = ScriptedManager::new(vec![]);
    let mut rec = Recorder::new();
    let r = Session::genesis(config(), vec![], &mut mgr, &mut rec);
    assert!(matches!(r, Err(GenesisError::EmptyValidatorSet)));
}

#[test]
fn genesis_rejects_duplicate_keys() {
    let mut mgr = ScriptedManager::new(vec![]);
    let mut rec = Recorder::new();
    let initial = vec![(100, 10, bundle(&[b"same"])), (200, 20, bundle(&[b"same"]))];
    let r = Session::genesis(config(), initial, &mut mgr, &mut rec);
    assert!(matches!(r, Err(GenesisError::DuplicatedKey)));
}

#[test]
fn rotation_advances_index_by_one_each_time() {
    let (mut s, mut mgr, mut rec) = genesis_three();
    assert_eq!(s.rotate_session(&mut mgr, &mut rec), Event::NewSession(1));
    assert_eq!(s.rotate_session(&mut mgr, &mut rec), Event::NewSession(2));
    assert_eq!(s.rotate_session(&mut mgr, &mut rec), Event::NewSession(3));
    assert_eq!(s.current_index(), 3);
    assert_eq!(s.session_index(), 3);
    assert_eq!(mgr.ended, vec![0, 1, 2]);
    assert_eq!(mgr.started, vec![0, 1, 2, 3]);
    assert_eq!(rec.before_endings, 3);
}

#[test]
fn rotation_queues_provider_roster_and_reports_length() {
    let (mut s, _, _) = genesis_three();
    let mut rec = TestSessionHandler;
    // The provider supplies a two-validator roster for the session after next.
    let mut mgr = ScriptedManager::new(vec![Some(vec![20, 40])]);
    s.rotate_session(&mut mgr, &mut rec);
    assert_eq!(s.queued_keys().len(), 2);
    // A provider-supplied roster always counts as an identity change.
    assert!(s.queued_changed);
    // Without a provider roster, the queued set repeats the active roster.
    s.rotate_session(&mut mgr, &mut rec);
    assert_eq!(s.validators(), vec![20, 40]);
    assert_eq!(s.queued_keys().len(), 2);
    assert!(!s.queued_changed);
}

#[test]
fn registration_takes_effect_two_sessions_later() {
    let (mut s, mut mgr, _) = genesis_three();
    let mut rec = Recorder::new();
    // Register a new key for validator 10 during session 0.
    assert_eq!(s.set_keys(bundle(&[b"fresh"]), true, Some(10), true), Ok(false));
    s.rotate_session(&mut mgr, &mut rec);
    // Session 1: the active key material is still the genesis material.
    assert_eq!(s.current_index(), 1);
    let (_, active1, queued1) = &rec.new_sessions[0];
    assert_eq!(active1[0], (10, vec![b"k10".to_vec()]));
    // The fresh key is queued now...
    assert_eq!(queued1[0], (10, vec![b"fresh".to_vec()]));
    s.rotate_session(&mut mgr, &mut rec);
    // ...and becomes active material at session 2.
    assert_eq!(s.current_index(), 2);
    let (_, active2, _) = &rec.new_sessions[1];
    assert_eq!(active2[0], (10, vec![b"fresh".to_vec()]));
}

#[test]
fn key_change_marks_next_queued_set_changed() {
    let (mut s, mut mgr, mut rec) = genesis_three();
    // No roster from the provider and no key changes: nothing changed.
    s.rotate_session(&mut mgr, &mut rec);
    assert!(!s.queued_changed);
    // A changed key makes the freshly queued set a change...
    assert_eq!(s.set_keys(bundle(&[b"new20"]), true, Some(20), true), Ok(false));
    s.rotate_session(&mut mgr, &mut rec);
    assert!(s.queued_changed);
    // ...and the observer hears about it one session later.
    let before = rec.new_sessions.len();
    s.rotate_session(&mut mgr, &mut rec);
    assert_eq!(rec.new_sessions[before].0, true);
    assert_eq!(rec.new_sessions[before - 1].0, false);
}

#[test]
fn disable_index_is_idempotent_and_fires_once() {
    let (mut s, _, _) = genesis_three();
    let mut rec = Recorder::new();
    let first = s.disable_index(&mut rec, 2);
    assert!(!first);
    let second = s.disable_index(&mut rec, 2);
    assert!(!second);
    assert_eq!(rec.disabled, vec![2]);
    assert_eq!(s.disabled_validators(), vec![2]);
}

#[test]
fn disable_threshold_of_one_third_with_three_validators() {
    let (mut s, _, _) = genesis_three();
    let mut rec = Recorder::new();
    // threshold = round(1/3 * 3) = 1 disabled validator.
    assert!(!s.disable_index(&mut rec, 0));
    assert!(s.disable_index(&mut rec, 1));
    assert_eq!(s.disabled_validators(), vec![0, 1]);
    assert_eq!(rec.disabled, vec![0, 1]);
}

#[test]
fn disable_by_validator_id() {
    let (mut s, _, _) = genesis_three();
    let mut rec = Recorder::new();
    assert_eq!(s.disable(&mut rec, &20), Ok(false));
    assert_eq!(s.disabled_validators(), vec![1]);
    assert_eq!(s.disable(&mut rec, &99), Err(()));
    assert_eq!(rec.disabled, vec![1]);
}

#[test]
fn disabled_set_cleared_when_changed_roster_activates() {
    let (mut s, _, _) = genesis_three();
    let mut rec = Recorder::new();
    // An unchanged rotation keeps the disabled set.
    let mut quiet = ScriptedManager::new(vec![]);
    s.disable_index(&mut rec, 1);
    s.rotate_session(&mut quiet, &mut rec);
    assert_eq!(s.disabled_validators(), vec![1]);
    // A provider roster queues a change; the rotation that activates it
    // clears the disabled set.
    let mut fresh = ScriptedManager::new(vec![Some(vec![10, 20, 30])]);
    s.rotate_session(&mut fresh, &mut rec);
    assert_eq!(s.disabled_validators(), vec![1]);
    s.rotate_session(&mut quiet, &mut rec);
    assert_eq!(s.disabled_validators(), Vec::<usize>::new());
}

#[test]
fn find_author_maps_position_to_validator() {
    let (s, _, _) = genesis_three();
    assert_eq!(FindAccountFromAuthorIndex::find_author(&s, Some(0)), Some(10));
    assert_eq!(FindAccountFromAuthorIndex::find_author(&s, Some(2)), Some(30));
    assert_eq!(FindAccountFromAuthorIndex::find_author(&s, Some(3)), None);
    assert_eq!(FindAccountFromAuthorIndex::find_author(&s, None), None);
}

#[test]
fn handler_pairs_fan_out_in_order() {
    let (mut s, _, _) = genesis_three();
    let mut pair = (Recorder::new(), Recorder::new());
    s.disable_index(&mut pair, 0);
    assert_eq!(pair.0.disabled, vec![0]);
    assert_eq!(pair.1.disabled, vec![0]);
}

#[test]
fn upgraded_keys_are_queued_for_the_next_session() {
    let (mut s, mut mgr, mut rec) = genesis_three();
    s.upgrade_keys(vec![9], |_val: u64, old: KeyBundle| {
        let mut k = old.keys[0].clone();
        k.insert(0, b'u');
        KeyBundle::new(vec![k])
    });
    assert_eq!(s.key_owner(9, &b"uk10".to_vec()), Some(10));
    assert_eq!(s.key_owner(1, &b"k10".to_vec()), None);
    // The queued bundles were migrated too: the roster activated next
    // carries the upgraded material.
    s.rotate_session(&mut mgr, &mut rec);
    let (_, active, _) = &rec.new_sessions[0];
    assert_eq!(active[0], (10, vec![b"uk10".to_vec()]));
}
