use cert_storage::filter::{
    aggregate_states, is_delta_file, is_replaced_by_full_filter, CRLiteTimestamp, Filter,
    STATE_ENFORCE, STATE_NOT_COVERED, STATE_NOT_ENROLLED, STATE_NO_FILTER, STATE_UNSET,
};
use cert_storage::kv::KvValue;
use cert_storage::semantics::{DATA_TYPE_CRLITE_FILTER_FULL, DATA_TYPE_CRLITE_FILTER_INCREMENTAL};
use cert_storage::state::SecurityState;
use cert_storage::SecurityStateError;
use clubcard::builder::{ApproximateRibbon, ClubcardBuilder, ExactRibbon};
use clubcard_crlite::builder::CRLiteBuilderItem;
use clubcard_crlite::{CRLiteClubcard, CRLiteCoverage, CRLiteQuery, Encoding, IssuerSpkiHash};
use sha2::Digest;

const ISSUER_SPKI: &[u8] = b"issuer public key";
const NOW: u64 = 1_700_000_000;
const DAY: u64 = 86400;

fn issuer_hash() -> [u8; 32] {
    sha2::Sha256::digest(ISSUER_SPKI).into()
}

/// A filter over one issuer, covering log 0 from time 0 to 1000000, in which
/// each given serial is revoked or not.
fn build_filter(serials: &[(&[u8], bool)]) -> Vec<u8> {
    let issuer = issuer_hash();
    let item = |serial: &[u8], revoked: bool| {
        if revoked {
            CRLiteBuilderItem::revoked(IssuerSpkiHash(issuer), serial.to_vec())
        } else {
            CRLiteBuilderItem::not_revoked(IssuerSpkiHash(issuer), serial.to_vec())
        }
    };
    let mut builder = ClubcardBuilder::new();
    let mut approx = builder.new_approx_builder(&issuer);
    approx.set_universe_size(serials.len());
    for (serial, revoked) in serials {
        if *revoked {
            approx.insert(item(serial, true));
        }
    }
    builder.collect_approx_ribbons(vec![ApproximateRibbon::from(approx)]);
    let mut exact = builder.new_exact_builder(&issuer);
    for (serial, revoked) in serials {
        exact.insert(item(serial, *revoked));
    }
    builder.collect_exact_ribbons(vec![ExactRibbon::from(exact)]);
    let logs = r#"[{"LogID": "AAAAAAAAAAAAAAAAAAAAAAAAAAAAAAAAAAAAAAAAAAA=", "MaxTimestamp": 1000000, "MinTimestamp": 0, "MMD": 0, "MinEntry": 0}]"#;
    let coverage = CRLiteCoverage::from_mozilla_ct_logs_json(logs.as_bytes());
    let clubcard = builder.build::<CRLiteQuery>(coverage, ());
    CRLiteClubcard::from(clubcard).to_bytes(Encoding::V4).unwrap()
}

/// A filter that parses but whose index claims more approximate-filter rows
/// than it holds.
fn build_filter_with_bad_rank() -> Vec<u8> {
    let issuer = issuer_hash();
    let mut builder = ClubcardBuilder::new();
    let mut approx = builder.new_approx_builder(&issuer);
    approx.set_universe_size(1);
    approx.insert(CRLiteBuilderItem::revoked(IssuerSpkiHash(issuer), b"S".to_vec()));
    builder.collect_approx_ribbons(vec![ApproximateRibbon::from(approx)]);
    let mut exact = builder.new_exact_builder(&issuer);
    exact.insert(CRLiteBuilderItem::revoked(IssuerSpkiHash(issuer), b"S".to_vec()));
    builder.collect_exact_ribbons(vec![ExactRibbon::from(exact)]);
    let logs = r#"[{"LogID": "AAAAAAAAAAAAAAAAAAAAAAAAAAAAAAAAAAAAAAAAAAA=", "MaxTimestamp": 1000000, "MinTimestamp": 0, "MMD": 0, "MinEntry": 0}]"#;
    let coverage = CRLiteCoverage::from_mozilla_ct_logs_json(logs.as_bytes());
    let mut card = builder.build::<CRLiteQuery>(coverage, ());
    for entry in card.index.values_mut() {
        entry.approx_filter_rank = card.approx_filter.len() + 5;
    }
    CRLiteClubcard::from(card).to_bytes(Encoding::V4).unwrap()
}

fn covered_timestamp() -> CRLiteTimestamp {
    CRLiteTimestamp { log_id: vec![0u8; 32], timestamp: 100 }
}

fn opened() -> SecurityState {
    let mut state = SecurityState::new();
    state.open_db(&vec![], None, None).unwrap();
    state
}

#[test]
fn prior_data_for_crlite_full() {
    let mut state = opened();
    assert_eq!(state.get_has_prior_data(DATA_TYPE_CRLITE_FILTER_FULL), Ok(false));
    state.set_full_crlite_filter(&build_filter(&[(b"S", false)]), Some(NOW)).unwrap();
    assert_eq!(state.get_has_prior_data(DATA_TYPE_CRLITE_FILTER_FULL), Ok(true));
    assert_eq!(state.get_has_prior_data(DATA_TYPE_CRLITE_FILTER_INCREMENTAL), Ok(false));
}

#[test]
fn delta_revocation_overrides_full_filter() {
    let mut state = opened();
    state.set_full_crlite_filter(&build_filter(&[(b"S", false), (b"T", false)]), Some(NOW)).unwrap();
    let ts = [covered_timestamp()];
    assert_eq!(state.get_crlite_revocation_state(ISSUER_SPKI, b"S", &ts, Some(NOW), 1), STATE_UNSET);
    state.add_crlite_delta(&build_filter(&[(b"S", true)]), Some(NOW)).unwrap();
    assert_eq!(state.get_has_prior_data(DATA_TYPE_CRLITE_FILTER_INCREMENTAL), Ok(true));
    assert_eq!(state.get_crlite_revocation_state(ISSUER_SPKI, b"S", &ts, Some(NOW), 1), STATE_ENFORCE);
}

#[test]
fn full_filter_revocation_stands_against_delta() {
    let mut state = opened();
    state.set_full_crlite_filter(&build_filter(&[(b"S", true), (b"T", false)]), Some(NOW)).unwrap();
    state.add_crlite_delta(&build_filter(&[(b"S", false)]), Some(NOW)).unwrap();
    let ts = [covered_timestamp()];
    assert_eq!(state.get_crlite_revocation_state(ISSUER_SPKI, b"S", &ts, Some(NOW), 1), STATE_ENFORCE);
}

#[test]
fn unknown_issuer_is_not_enrolled() {
    let mut state = opened();
    state.set_full_crlite_filter(&build_filter(&[(b"S", true)]), Some(NOW)).unwrap();
    let ts = [covered_timestamp()];
    assert_eq!(
        state.get_crlite_revocation_state(b"another issuer", b"S", &ts, Some(NOW), 1),
        STATE_NOT_ENROLLED
    );
}

#[test]
fn uncovered_timestamps_are_not_covered() {
    let mut state = opened();
    state.set_full_crlite_filter(&build_filter(&[(b"S", true)]), Some(NOW)).unwrap();
    let other_log = [CRLiteTimestamp { log_id: vec![1u8; 32], timestamp: 100 }];
    assert_eq!(
        state.get_crlite_revocation_state(ISSUER_SPKI, b"S", &other_log, Some(NOW), 1),
        STATE_NOT_COVERED
    );
    let short_log_id = [CRLiteTimestamp { log_id: vec![0u8; 31], timestamp: 100 }];
    assert_eq!(
        state.get_crlite_revocation_state(ISSUER_SPKI, b"S", &short_log_id, Some(NOW), 1),
        STATE_NOT_COVERED
    );
}

#[test]
fn timestamp_coverage_floor() {
    let mut state = opened();
    state.set_full_crlite_filter(&build_filter(&[(b"S", true)]), Some(NOW)).unwrap();
    let one = [covered_timestamp()];
    assert_eq!(state.get_crlite_revocation_state(ISSUER_SPKI, b"S", &one, Some(NOW), 2), STATE_NOT_COVERED);
    let two = [covered_timestamp(), CRLiteTimestamp { log_id: vec![0u8; 32], timestamp: 200 }];
    assert_eq!(state.get_crlite_revocation_state(ISSUER_SPKI, b"S", &two, Some(NOW), 2), STATE_ENFORCE);
}

#[test]
fn freshness_gate() {
    let mut state = opened();
    let updated = NOW - 11 * DAY;
    state.set_full_crlite_filter(&build_filter(&[(b"S", true)]), Some(updated)).unwrap();
    let ts = [covered_timestamp()];
    assert_eq!(
        state.get_crlite_revocation_state(ISSUER_SPKI, b"S", &ts, Some(updated + 9 * DAY), 1),
        STATE_ENFORCE
    );
    assert_eq!(
        state.get_crlite_revocation_state(ISSUER_SPKI, b"S", &ts, Some(updated + 11 * DAY), 1),
        STATE_NO_FILTER
    );
    assert_eq!(state.get_crlite_revocation_state(ISSUER_SPKI, b"S", &ts, None, 1), STATE_NO_FILTER);
}

#[test]
fn no_filter_without_filters() {
    let mut state = opened();
    state.note_crlite_update_time(Some(NOW)).unwrap();
    let ts = [covered_timestamp()];
    assert_eq!(state.get_crlite_revocation_state(ISSUER_SPKI, b"S", &ts, Some(NOW), 1), STATE_NO_FILTER);
    let closed = SecurityState::new();
    assert_eq!(closed.get_crlite_revocation_state(ISSUER_SPKI, b"S", &ts, Some(NOW), 1), STATE_NO_FILTER);
}

#[test]
fn full_filter_install_replaces_all_filters() {
    let mut state = opened();
    state.set_full_crlite_filter(&build_filter(&[(b"S", false)]), Some(NOW)).unwrap();
    state.add_crlite_delta(&build_filter(&[(b"S", true)]), Some(NOW)).unwrap();
    state.append_crlite_deltas(&[build_filter(&[(b"T", true)])]);
    state.set_full_crlite_filter(&build_filter(&[(b"S", false)]), Some(NOW)).unwrap();
    assert_eq!(state.get_has_prior_data(DATA_TYPE_CRLITE_FILTER_FULL), Ok(true));
    assert_eq!(state.get_has_prior_data(DATA_TYPE_CRLITE_FILTER_INCREMENTAL), Ok(false));
    let ts = [covered_timestamp()];
    assert_eq!(state.get_crlite_revocation_state(ISSUER_SPKI, b"S", &ts, Some(NOW), 1), STATE_UNSET);
    assert_eq!(state.read_value(b"last_crlite_update"), Some(KvValue::U64(NOW)));
}

#[test]
fn invalid_filters_are_left_out() {
    let mut state = opened();
    state.set_full_crlite_filter(b"not a filter", Some(NOW)).unwrap();
    assert_eq!(state.get_has_prior_data(DATA_TYPE_CRLITE_FILTER_FULL), Ok(false));
    state.set_full_crlite_filter(&build_filter(&[(b"S", false)]), Some(NOW)).unwrap();
    state.add_crlite_delta(b"junk", Some(NOW)).unwrap();
    state.append_crlite_deltas(&[b"junk".to_vec()]);
    assert_eq!(state.get_has_prior_data(DATA_TYPE_CRLITE_FILTER_INCREMENTAL), Ok(false));
    assert!(matches!(Filter::load(Some(b"junk")), Err(SecurityStateError::InvalidFilter)));
    assert!(matches!(Filter::load(None), Ok(None)));
    assert!(matches!(Filter::load(Some(&build_filter(&[(b"S", false)]))), Ok(Some(_))));
}

#[test]
fn full_filter_needs_clock_and_open_store() {
    let mut state = opened();
    state.set_full_crlite_filter(&build_filter(&[(b"S", false)]), Some(NOW)).unwrap();
    assert_eq!(
        state.set_full_crlite_filter(&build_filter(&[(b"S", false)]), None),
        Err(SecurityStateError::Clock)
    );
    assert_eq!(state.get_has_prior_data(DATA_TYPE_CRLITE_FILTER_FULL), Ok(false));
    let mut closed = SecurityState::new();
    assert_eq!(
        closed.set_full_crlite_filter(&build_filter(&[(b"S", false)]), Some(NOW)),
        Err(SecurityStateError::NotInitialized)
    );
}

#[test]
fn open_db_loads_full_filter() {
    let mut state = SecurityState::new();
    let full = build_filter(&[(b"S", true)]);
    state.open_db(&vec![], None, Some(&full)).unwrap();
    assert_eq!(state.get_has_prior_data(DATA_TYPE_CRLITE_FILTER_FULL), Ok(true));
    let mut bad = SecurityState::new();
    bad.open_db(&vec![], None, Some(b"junk")).unwrap();
    assert_eq!(bad.get_has_prior_data(DATA_TYPE_CRLITE_FILTER_FULL), Ok(false));
}

#[test]
fn deltas_loaded_in_background_count() {
    let mut state = SecurityState::new();
    state.append_crlite_deltas(&[build_filter(&[(b"S", true)]), b"junk".to_vec()]);
    assert_eq!(state.get_has_prior_data(DATA_TYPE_CRLITE_FILTER_FULL), Ok(true));
    assert_eq!(state.get_has_prior_data(DATA_TYPE_CRLITE_FILTER_INCREMENTAL), Ok(false));
    assert_eq!(state.open_db(&vec![], None, None), Err(SecurityStateError::Internal));
    assert!(!state.db_needs_opening());
}

#[test]
fn filter_with_unsound_index_is_invalid() {
    let bad = build_filter_with_bad_rank();
    assert!(CRLiteClubcard::from_bytes(&bad).is_ok());
    assert!(matches!(Filter::load(Some(&bad)), Err(SecurityStateError::InvalidFilter)));
    let mut state = opened();
    state.set_full_crlite_filter(&bad, Some(NOW)).unwrap();
    assert_eq!(state.get_has_prior_data(DATA_TYPE_CRLITE_FILTER_FULL), Ok(false));
    let ts = [covered_timestamp()];
    assert_eq!(state.get_crlite_revocation_state(ISSUER_SPKI, b"S", &ts, Some(NOW), 1), STATE_NO_FILTER);
    state.set_full_crlite_filter(&build_filter(&[(b"S", false)]), Some(NOW)).unwrap();
    state.add_crlite_delta(&bad, Some(NOW)).unwrap();
    assert_eq!(state.get_has_prior_data(DATA_TYPE_CRLITE_FILTER_INCREMENTAL), Ok(false));
    assert_eq!(state.get_crlite_revocation_state(ISSUER_SPKI, b"S", &ts, Some(NOW), 1), STATE_UNSET);
}

#[test]
fn filter_sizes_follow_loaded_filters() {
    let mut state = opened();
    assert!(state.filter_sizes().is_empty());
    state.set_full_crlite_filter(&build_filter(&[(b"S", false)]), Some(NOW)).unwrap();
    state.add_crlite_delta(&build_filter(&[(b"S", true)]), Some(NOW)).unwrap();
    let sizes = state.filter_sizes();
    assert_eq!(sizes.len(), 2);
    assert!(sizes.iter().all(|s| *s > 0));
}

#[test]
fn aggregation_precedence() {
    assert_eq!(aggregate_states(&[STATE_UNSET, STATE_ENFORCE]), STATE_ENFORCE);
    assert_eq!(aggregate_states(&[STATE_ENFORCE, STATE_UNSET]), STATE_ENFORCE);
    assert_eq!(aggregate_states(&[STATE_NOT_ENROLLED, STATE_NOT_ENROLLED]), STATE_NOT_ENROLLED);
    assert_eq!(aggregate_states(&[STATE_NOT_COVERED, STATE_NOT_COVERED]), STATE_NOT_COVERED);
    assert_eq!(aggregate_states(&[STATE_NOT_COVERED, STATE_UNSET, STATE_NOT_ENROLLED]), STATE_UNSET);
    assert_eq!(aggregate_states(&[STATE_NOT_COVERED, STATE_NOT_ENROLLED]), STATE_NOT_ENROLLED);
    assert_eq!(aggregate_states(&[]), STATE_NOT_COVERED);
}

#[test]
fn filter_file_names() {
    assert!(is_delta_file(b"2024-01-01.delta"));
    assert!(is_delta_file(b"a.b.delta"));
    assert!(!is_delta_file(b".delta"));
    assert!(!is_delta_file(b"delta"));
    assert!(!is_delta_file(b"x.delta2"));
    for name in ["crlite.filter", "x.delta", "a.coverage", "b.enrollment", "c.stash"] {
        assert!(is_replaced_by_full_filter(name.as_bytes()));
    }
    for name in ["data.safe.bin", "crlite", ".stash", "x.filter.bak"] {
        assert!(!is_replaced_by_full_filter(name.as_bytes()));
    }
}
