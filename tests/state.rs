use base64::prelude::BASE64_STANDARD;
use base64::Engine;
use cert_storage::filter::{STATE_ENFORCE, STATE_UNSET};
use cert_storage::keys::{make_data_type_key, make_key1, make_key2, KeyPrefix};
use cert_storage::kv::{KvOp, KvValue};
use cert_storage::semantics::{DATA_TYPE_CERTIFICATE, DATA_TYPE_REVOCATION};
use cert_storage::state::{EncodedSecurityState, SecurityState};
use cert_storage::SecurityStateError;
use sha2::Digest;

fn b64(b: &[u8]) -> Vec<u8> {
    BASE64_STANDARD.encode(b).into_bytes()
}

fn sha(b: &[u8]) -> Vec<u8> {
    sha2::Sha256::digest(b).to_vec()
}

fn opened(records: Vec<(Vec<u8>, KvValue)>) -> SecurityState {
    let mut state = SecurityState::new();
    state.open_db(&records, None, None).unwrap();
    state
}

fn lines(text: &str) -> Vec<Vec<u8>> {
    text.lines().map(|l| l.as_bytes().to_vec()).collect()
}

#[test]
fn legacy_migration_writes_both_kinds() {
    let mut state = SecurityState::new();
    let legacy = lines("AAAA\n\tBBBB\n BBBB\n");
    state.open_db(&vec![], Some(&legacy), None).unwrap();
    let dn = vec![0u8, 0, 0];
    let part = vec![0x04u8, 0x10, 0x41];
    let spk = make_key2(KeyPrefix::SubjectPubKey, &dn, &part);
    let is = make_key2(KeyPrefix::IssuerSerial, &dn, &part);
    assert_eq!(spk, [b"spk".to_vec(), dn.clone(), part.clone()].concat());
    assert_eq!(state.read_value(&spk), Some(KvValue::I64(1)));
    assert_eq!(state.read_value(&is), Some(KvValue::I64(1)));
    let writes = state.take_pending_writes();
    assert_eq!(
        writes,
        vec![KvOp::Put(spk, KvValue::I64(1)), KvOp::Put(is, KvValue::I64(1))]
    );
}

#[test]
fn legacy_migration_skips_comments_and_undecodable_lines() {
    let mut state = SecurityState::new();
    let legacy = lines("# comment\n\nAAAA\n\t!!!!\n!!!!\n BBBB\nAAAB\n BBBB\n");
    state.open_db(&vec![], Some(&legacy), None).unwrap();
    let writes = state.take_pending_writes();
    let dn = BASE64_STANDARD.decode("AAAB").unwrap();
    let part = vec![0x04u8, 0x10, 0x41];
    assert_eq!(
        writes,
        vec![KvOp::Put(make_key2(KeyPrefix::IssuerSerial, &dn, &part), KvValue::I64(1))]
    );
}

#[test]
fn open_db_is_idempotent() {
    let mut state = opened(vec![(b"k".to_vec(), KvValue::U64(9))]);
    assert!(!state.db_needs_opening());
    state.open_db(&vec![(b"k".to_vec(), KvValue::U64(1))], None, None).unwrap();
    assert_eq!(state.read_value(b"k"), Some(KvValue::U64(9)));
}

#[test]
fn revocation_by_issuer_and_serial() {
    let state = opened(vec![(b"isIS".to_vec(), KvValue::I64(1))]);
    assert_eq!(state.get_revocation_state(b"I", b"S", b"Subj", b"PK"), Ok(1));
}

#[test]
fn revocation_falls_back_to_subject_and_key() {
    let key = [b"spkSubj".to_vec(), sha(b"PK")].concat();
    let state = opened(vec![(key, KvValue::I64(2))]);
    assert_eq!(state.get_revocation_state(b"I", b"S", b"Subj", b"PK"), Ok(2));
    assert_eq!(state.get_revocation_state(b"I", b"S", b"Subj", b"PK2"), Ok(STATE_UNSET));
}

#[test]
fn revocation_precedence_between_entries() {
    let spk = [b"spkSubj".to_vec(), sha(b"PK")].concat();
    let state = opened(vec![
        (b"isIS".to_vec(), KvValue::I64(STATE_ENFORCE as i64)),
        (spk.clone(), KvValue::I64(STATE_UNSET as i64)),
    ]);
    assert_eq!(state.get_revocation_state(b"I", b"S", b"Subj", b"PK"), Ok(STATE_ENFORCE));
    let swapped = opened(vec![
        (b"isIS".to_vec(), KvValue::I64(STATE_UNSET as i64)),
        (spk, KvValue::I64(STATE_ENFORCE as i64)),
    ]);
    assert_eq!(swapped.get_revocation_state(b"I", b"S", b"Subj", b"PK"), Ok(STATE_ENFORCE));
    let empty = opened(vec![]);
    assert_eq!(empty.get_revocation_state(b"I", b"S", b"Subj", b"PK"), Ok(STATE_UNSET));
}

#[test]
fn revocation_rejects_mistyped_values() {
    let state = opened(vec![(b"isIS".to_vec(), KvValue::U64(1))]);
    assert_eq!(
        state.get_revocation_state(b"I", b"S", b"Subj", b"PK"),
        Err(SecurityStateError::MalformedRecord)
    );
    let state = opened(vec![(b"isIS".to_vec(), KvValue::I64(40000))]);
    assert_eq!(
        state.get_revocation_state(b"I", b"S", b"Subj", b"PK"),
        Err(SecurityStateError::MalformedRecord)
    );
}

#[test]
fn operations_before_open_fail() {
    let mut state = SecurityState::new();
    assert!(state.db_needs_opening());
    assert_eq!(
        state.get_revocation_state(b"I", b"S", b"Subj", b"PK"),
        Err(SecurityStateError::NotInitialized)
    );
    assert_eq!(state.get_has_prior_data(DATA_TYPE_REVOCATION), Err(SecurityStateError::NotInitialized));
    assert_eq!(state.set_batch_state(&[], 1), Err(SecurityStateError::NotInitialized));
    assert_eq!(state.add_certs(&[]), Err(SecurityStateError::NotInitialized));
    assert_eq!(state.remove_certs_by_hashes(&[]), Err(SecurityStateError::NotInitialized));
    assert_eq!(state.note_crlite_update_time(Some(5)), Err(SecurityStateError::NotInitialized));
    assert_eq!(state.find_cert_by_hash(&[0; 32]), Err(SecurityStateError::NotInitialized));
    let mut out = vec![vec![1u8]];
    assert_eq!(state.find_certs_by_subject(b"s", &mut out), Err(SecurityStateError::NotInitialized));
    assert_eq!(out, vec![vec![1u8]]);
    assert_eq!(state.has_all_certs_by_hash(&[]), Ok(true));
}

#[test]
fn batch_state_writes_decodable_entries() {
    let mut state = opened(vec![]);
    assert_eq!(state.get_has_prior_data(DATA_TYPE_REVOCATION), Ok(false));
    let entries = vec![
        EncodedSecurityState::new(KeyPrefix::IssuerSerial, b64(b"I"), b64(b"S"), 1),
        EncodedSecurityState::new(KeyPrefix::IssuerSerial, b"@@".to_vec(), b64(b"S"), 1),
        EncodedSecurityState::new(KeyPrefix::SubjectPubKey, b64(b"Subj"), b64(&sha(b"PK")), 2),
    ];
    assert!(entries[1].key().is_err());
    assert_eq!(entries[0].key(), Ok(b"isIS".to_vec()));
    assert_eq!(entries[2].state(), 2);
    state.set_batch_state(&entries, DATA_TYPE_REVOCATION).unwrap();
    assert_eq!(state.get_has_prior_data(DATA_TYPE_REVOCATION), Ok(true));
    assert_eq!(state.get_revocation_state(b"I", b"S", b"x", b"y"), Ok(1));
    assert_eq!(state.get_revocation_state(b"J", b"S", b"Subj", b"PK"), Ok(2));
    let writes = state.take_pending_writes();
    assert_eq!(writes.len(), 3);
    assert_eq!(writes[0], KvOp::Put(make_data_type_key(DATA_TYPE_REVOCATION), KvValue::Bool(true)));
}

#[test]
fn prior_data_rejects_mistyped_flag() {
    let state = opened(vec![(make_data_type_key(DATA_TYPE_CERTIFICATE), KvValue::Bool(false))]);
    assert_eq!(state.get_has_prior_data(DATA_TYPE_CERTIFICATE), Err(SecurityStateError::MalformedRecord));
}

#[test]
fn cert_add_and_find_by_subject() {
    let mut state = opened(vec![]);
    state.add_certs(&[(b64(&[0x30, 0x00]), b64(&[0x31, 0x00]), 0)]).unwrap();
    let mut found = vec![];
    state.find_certs_by_subject(&[0x31, 0x00], &mut found).unwrap();
    assert_eq!(found, vec![vec![0x30u8, 0x00]]);
    assert_eq!(state.get_has_prior_data(DATA_TYPE_CERTIFICATE), Ok(true));
}

#[test]
fn certs_with_one_subject_are_all_found() {
    let mut state = opened(vec![]);
    let subject = b64(b"subject");
    state
        .add_certs(&[(b64(b"cert one"), subject.clone(), 0), (b64(b"cert two"), subject.clone(), 1)])
        .unwrap();
    state.add_certs(&[(b64(b"cert one"), subject.clone(), 0)]).unwrap();
    let mut found = vec![vec![9u8]];
    state.find_certs_by_subject(b"subject", &mut found).unwrap();
    assert_eq!(found, vec![b"cert one".to_vec(), b"cert two".to_vec()]);
    let list = state.read_value(&make_key1(KeyPrefix::Subject, b"subject"));
    assert_eq!(list, Some(KvValue::Blob([sha(b"cert one"), sha(b"cert two")].concat())));
}

#[test]
fn cert_delete_consistency() {
    let mut state = opened(vec![]);
    let der = b"a certificate".to_vec();
    state.add_certs(&[(b64(&der), b64(b"subj"), 0)]).unwrap();
    let h = sha(&der);
    assert_eq!(state.find_cert_by_hash(&h), Ok(Some(der.clone())));
    assert_eq!(state.has_all_certs_by_hash(&[h.clone()]), Ok(true));
    state.remove_certs_by_hashes(&[b64(&h)]).unwrap();
    assert_eq!(state.find_cert_by_hash(&h), Ok(None));
    assert_eq!(state.has_cert_by_hash(&h), Ok(false));
    assert_eq!(state.has_all_certs_by_hash(&[h.clone()]), Ok(false));
    let mut found = vec![];
    state.find_certs_by_subject(b"subj", &mut found).unwrap();
    assert!(found.is_empty());
    state.remove_certs_by_hashes(&[b64(&h), b"???".to_vec()]).unwrap();
}

#[test]
fn add_certs_skips_undecodable_entries() {
    let mut state = opened(vec![]);
    state
        .add_certs(&[(b"%%%".to_vec(), b64(b"s"), 0), (b64(b"good"), b64(b"s"), 0)])
        .unwrap();
    let mut found = vec![];
    state.find_certs_by_subject(b"s", &mut found).unwrap();
    assert_eq!(found, vec![b"good".to_vec()]);
}

#[test]
fn add_certs_too_long_aborts_the_batch() {
    let mut state = opened(vec![]);
    let long = vec![1u8; 65536];
    let r = state.add_certs(&[(b64(b"first"), b64(b"s"), 0), (b64(&long), b64(b"s"), 0)]);
    assert_eq!(r, Err(SecurityStateError::TooLong));
    assert_eq!(state.find_cert_by_hash(&sha(b"first")), Ok(None));
    assert!(state.take_pending_writes().is_empty());
}

#[test]
fn add_certs_malformed_list_aborts_the_batch() {
    let mut state = opened(vec![(make_key1(KeyPrefix::Subject, b"s"), KvValue::Blob(vec![1, 2, 3]))]);
    assert_eq!(state.add_certs(&[(b64(b"c"), b64(b"s"), 0)]), Err(SecurityStateError::MalformedList));
    assert_eq!(state.find_cert_by_hash(&sha(b"c")), Ok(None));
    let mut found = vec![vec![1u8]];
    assert_eq!(state.find_certs_by_subject(b"s", &mut found), Err(SecurityStateError::MalformedList));
    assert!(found.is_empty());
}

#[test]
fn find_cert_by_hash_rejects_malformed_record() {
    let h = vec![3u8; 32];
    let state = opened(vec![(make_key1(KeyPrefix::Cert, &h), KvValue::Blob(vec![2, 0]))]);
    assert_eq!(state.find_cert_by_hash(&h), Err(SecurityStateError::MalformedRecord));
    assert_eq!(state.has_cert_by_hash(&h), Ok(true));
}

#[test]
fn find_by_subject_passes_over_missing_records() {
    let subject_key = make_key1(KeyPrefix::Subject, b"s");
    let state = opened(vec![(subject_key, KvValue::Blob(vec![5u8; 32]))]);
    let mut found = vec![];
    state.find_certs_by_subject(b"s", &mut found).unwrap();
    assert!(found.is_empty());
}

#[test]
fn remaining_operation_count_wraps() {
    let mut state = SecurityState::new();
    state.note_operation_started();
    state.note_operation_started();
    state.note_operation_finished();
    assert_eq!(state.remaining_operation_count(), 1);
    let mut fresh = SecurityState::new();
    fresh.note_operation_finished();
    assert_eq!(fresh.remaining_operation_count(), -1);
}

#[test]
fn update_time_needs_a_clock() {
    let mut state = opened(vec![]);
    assert_eq!(state.note_crlite_update_time(None), Err(SecurityStateError::Clock));
    state.note_crlite_update_time(Some(1000)).unwrap();
    assert_eq!(state.read_value(b"last_crlite_update"), Some(KvValue::U64(1000)));
    assert!(state.is_crlite_fresh(Some(1000 + 864000 - 1)));
    assert!(!state.is_crlite_fresh(Some(1000 + 864000)));
    assert!(!state.is_crlite_fresh(None));
}

#[test]
fn update_time_beyond_sanity_is_never_fresh() {
    let state = opened(vec![(b"last_crlite_update".to_vec(), KvValue::U64(1u64 << 63))]);
    assert!(!state.is_crlite_fresh(Some(1u64 << 63)));
    let sane = opened(vec![(b"last_crlite_update".to_vec(), KvValue::U64((1u64 << 63) - 1))]);
    assert!(sane.is_crlite_fresh(Some(1u64 << 63)));
}
