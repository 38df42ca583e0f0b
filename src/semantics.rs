//! The meaning of the operations on the store, as functions on its map.

use vstd::prelude::*;
use crate::codec::{
    decode_cert, encode_cert, hashes_of, list_add, list_remove, list_well_formed, MAX_FIELD_LEN,
};
use crate::error::SecurityStateError;
use crate::filter::{filter_state, usable_filter, STATE_ENFORCE, STATE_UNSET};
use crate::keys::{data_type_key, key1, key2, last_update_key, KeyPrefix};
use crate::kv::KvVal;
use crate::outside::{base64_decoded, sha256_of};

verus! {

/// Administrator-pushed revocations.
pub const DATA_TYPE_REVOCATION: u8 = 1;

/// Stored certificates.
pub const DATA_TYPE_CERTIFICATE: u8 = 2;

/// The full CRLite filter.
pub const DATA_TYPE_CRLITE_FILTER_FULL: u8 = 4;

/// CRLite delta filters.
pub const DATA_TYPE_CRLITE_FILTER_INCREMENTAL: u8 = 5;

/// How long a CRLite update stays fresh, in seconds.
pub const CRLITE_FRESHNESS_SECS: u64 = 864000;

/// The largest update time taken at face value; later ones are nonsense.
pub const MAX_SANE_UPDATE_TIME: u64 = 9223372036854775807;

/// The map of a store: binary keys to typed values.
pub type KvMap = Map<Seq<u8>, KvVal>;

/// The blob stored under `k`, if the value there is a blob.
pub open spec fn blob_at(m: KvMap, k: Seq<u8>) -> Option<Seq<u8>> {
    if m.contains_key(k) {
        match m[k] {
            KvVal::Blob(b) => Some(b),
            _ => None,
        }
    } else {
        None
    }
}

/// The revocation state stored under `k`: absent, a 16-bit state, or an error
/// for a value of another type or out of range.
pub open spec fn read_state(m: KvMap, k: Seq<u8>) -> Result<Option<i16>, SecurityStateError> {
    if !m.contains_key(k) {
        Ok(None)
    } else {
        match m[k] {
            KvVal::I64(i) => if -32768 <= i <= 32767 {
                Ok(Some(i as i16))
            } else {
                Err(SecurityStateError::MalformedRecord)
            },
            _ => Err(SecurityStateError::MalformedRecord),
        }
    }
}

/// The revocation state of a certificate: the issuer-and-serial entry where it
/// is present and not unset, else the subject-and-key-hash entry, else unset.
pub open spec fn revocation_state(
    m: KvMap,
    issuer: Seq<u8>,
    serial: Seq<u8>,
    subject: Seq<u8>,
    pub_key_hash: Seq<u8>,
) -> Result<i16, SecurityStateError> {
    match read_state(m, key2(KeyPrefix::IssuerSerial, issuer, serial)) {
        Err(e) => Err(e),
        Ok(Some(v)) if v != STATE_UNSET => Ok(v),
        _ => match read_state(m, key2(KeyPrefix::SubjectPubKey, subject, pub_key_hash)) {
            Err(e) => Err(e),
            Ok(Some(v)) => Ok(v),
            Ok(None) => Ok(STATE_UNSET),
        },
    }
}

/// Whether data of type `t` was stored before: for the CRLite types this is
/// read from the number of loaded filters, for the others from the store.
pub open spec fn prior_data(m: KvMap, filter_count: nat, t: u8) -> Result<bool, SecurityStateError> {
    if t == DATA_TYPE_CRLITE_FILTER_FULL {
        Ok(filter_count > 0)
    } else if t == DATA_TYPE_CRLITE_FILTER_INCREMENTAL {
        Ok(filter_count > 1)
    } else if !m.contains_key(data_type_key(t)) {
        Ok(false)
    } else if m[data_type_key(t)] == KvVal::Bool(true) {
        Ok(true)
    } else {
        Err(SecurityStateError::MalformedRecord)
    }
}

/// Whether the CRLite data is fresh at time `now`: the last update is recorded,
/// sane, and less than ten days old. An unknown time is never fresh.
pub open spec fn crlite_fresh(m: KvMap, now: Option<u64>) -> bool {
    match now {
        None => false,
        Some(t) => m.contains_key(last_update_key()) && match m[last_update_key()] {
            KvVal::U64(last) => last <= MAX_SANE_UPDATE_TIME && t < last + CRLITE_FRESHNESS_SECS,
            _ => false,
        },
    }
}

/// The key a batch entry is written under, if both of its parts decode.
pub open spec fn entry_key(p: KeyPrefix, part1: Seq<u8>, part2: Seq<u8>) -> Option<Seq<u8>> {
    match (base64_decoded(part1), base64_decoded(part2)) {
        (Some(a), Some(b)) => Some(key2(p, a, b)),
        _ => None,
    }
}

/// The view of a batch entry: prefix, the two base64 parts, and the state.
pub type EntryView = (KeyPrefix, Seq<u8>, Seq<u8>, i16);

/// Writes the entries of a batch in order, skipping those that do not decode.
pub open spec fn apply_batch(m: KvMap, entries: Seq<EntryView>) -> KvMap
    decreases entries.len(),
{
    if entries.len() == 0 {
        m
    } else {
        let e = entries[0];
        let next = match entry_key(e.0, e.1, e.2) {
            Some(k) => m.insert(k, KvVal::I64(e.3 as i64)),
            None => m,
        };
        apply_batch(next, entries.drop_first())
    }
}


/// The hash list stored for `subject`; empty where none is stored or the
/// value there is not a blob.
pub open spec fn subject_list(m: KvMap, subject: Seq<u8>) -> Seq<u8> {
    match blob_at(m, key1(KeyPrefix::Subject, subject)) {
        Some(b) => b,
        None => Seq::empty(),
    }
}

/// The view of a certificate to add: base64 DER, base64 subject, trust.
pub type CertInput = (Seq<u8>, Seq<u8>, i16);

/// Adds one certificate: stores its record under the hash of its DER and adds
/// that hash to its subject's list. A certificate whose parts do not decode is
/// skipped; a part too long for the record, or a malformed list, is an error.
pub open spec fn add_cert_step(m: KvMap, c: CertInput) -> Result<KvMap, SecurityStateError> {
    match (base64_decoded(c.0), base64_decoded(c.1)) {
        (Some(der), Some(subject)) => if der.len() > MAX_FIELD_LEN || subject.len()
            > MAX_FIELD_LEN {
            Err(SecurityStateError::TooLong)
        } else {
            let h = sha256_of(der);
            let m1 = m.insert(key1(KeyPrefix::Cert, h), KvVal::Blob(encode_cert(der, subject, c.2)));
            let old = subject_list(m1, subject);
            if !list_well_formed(old) || h.len() != 32 {
                Err(SecurityStateError::MalformedList)
            } else {
                let new = list_add(old, h);
                if new.len() != old.len() {
                    Ok(m1.insert(key1(KeyPrefix::Subject, subject), KvVal::Blob(new)))
                } else {
                    Ok(m1)
                }
            }
        },
        _ => Ok(m),
    }
}

/// Adds certificates in order; the first error ends the batch.
pub open spec fn add_certs_from(m: KvMap, certs: Seq<CertInput>) -> Result<KvMap, SecurityStateError>
    decreases certs.len(),
{
    if certs.len() == 0 {
        Ok(m)
    } else {
        match add_cert_step(m, certs[0]) {
            Err(e) => Err(e),
            Ok(next) => add_certs_from(next, certs.drop_first()),
        }
    }
}

/// The store after a batch of certificates is added, or the batch's error.
pub open spec fn add_certs_result(m: KvMap, certs: Seq<CertInput>) -> Result<KvMap, SecurityStateError> {
    add_certs_from(m.insert(data_type_key(DATA_TYPE_CERTIFICATE), KvVal::Bool(true)), certs)
}

/// Removes one certificate by the base64 of its hash. The record is looked up
/// in the store as it was before the batch (`m0`), the subject's list in the
/// store as the batch left it so far (`m`). A hash that does not decode is
/// skipped; a malformed list is an error.
pub open spec fn remove_cert_step(m0: KvMap, m: KvMap, hash_b64: Seq<u8>) -> Result<
    KvMap,
    SecurityStateError,
> {
    match base64_decoded(hash_b64) {
        None => Ok(m),
        Some(h) => {
            let ck = key1(KeyPrefix::Cert, h);
            let updated = match blob_at(m0, ck) {
                Some(cb) => match decode_cert(cb) {
                    Some(c) => {
                        let old = subject_list(m, c.1);
                        if !list_well_formed(old) || h.len() != 32 {
                            Err(SecurityStateError::MalformedList)
                        } else {
                            let new = list_remove(old, h);
                            if new.len() != old.len() {
                                Ok(m.insert(key1(KeyPrefix::Subject, c.1), KvVal::Blob(new)))
                            } else {
                                Ok(m)
                            }
                        }
                    },
                    None => Ok(m),
                },
                None => Ok(m),
            };
            match updated {
                Err(e) => Err(e),
                Ok(m2) => Ok(m2.remove(ck)),
            }
        },
    }
}

/// Removes certificates in order; the first error ends the batch.
pub open spec fn remove_certs_from(m0: KvMap, m: KvMap, hashes: Seq<Seq<u8>>) -> Result<
    KvMap,
    SecurityStateError,
>
    decreases hashes.len(),
{
    if hashes.len() == 0 {
        Ok(m)
    } else {
        match remove_cert_step(m0, m, hashes[0]) {
            Err(e) => Err(e),
            Ok(next) => remove_certs_from(m0, next, hashes.drop_first()),
        }
    }
}

/// The DER of the certificate stored under hash `h`, as a sequence of zero or
/// one element: none where nothing, or a malformed record, is stored.
pub open spec fn der_found(m: KvMap, h: Seq<u8>) -> Seq<Seq<u8>> {
    match blob_at(m, key1(KeyPrefix::Cert, h)) {
        Some(cb) => match decode_cert(cb) {
            Some(c) => seq![c.0],
            None => Seq::empty(),
        },
        None => Seq::empty(),
    }
}

/// The DERs found for a sequence of hashes, in order.
pub open spec fn ders_found(m: KvMap, hs: Seq<Seq<u8>>) -> Seq<Seq<u8>>
    decreases hs.len(),
{
    if hs.len() == 0 {
        Seq::empty()
    } else {
        der_found(m, hs[0]) + ders_found(m, hs.drop_first())
    }
}

/// The DERs of the certificates listed for `subject`, or an error for a
/// malformed list.
pub open spec fn certs_by_subject(m: KvMap, subject: Seq<u8>) -> Result<
    Seq<Seq<u8>>,
    SecurityStateError,
> {
    let l = subject_list(m, subject);
    if !list_well_formed(l) {
        Err(SecurityStateError::MalformedList)
    } else {
        Ok(ders_found(m, hashes_of(l)))
    }
}

/// A certificate record is stored under hash `h`.
pub open spec fn has_cert(m: KvMap, h: Seq<u8>) -> bool {
    blob_at(m, key1(KeyPrefix::Cert, h)) is Some
}


/// Every certificate record that decodes is stored under the SHA-256 hash of
/// its own DER.
pub open spec fn records_consistent(m: KvMap) -> bool {
    forall|h: Seq<u8>|
        #[trigger] blob_at(m, key1(KeyPrefix::Cert, h)) is Some ==> match decode_cert(
            blob_at(m, key1(KeyPrefix::Cert, h))->Some_0,
        ) {
            Some(c) => sha256_of(c.0) == h,
            None => true,
        }
}

/// The filter files among `files` that can be loaded, in order.
pub open spec fn usable_filters(files: Seq<Seq<u8>>) -> Seq<Seq<u8>>
    decreases files.len(),
{
    if files.len() == 0 {
        Seq::empty()
    } else {
        let rest = usable_filters(files.drop_last());
        if usable_filter(files.last()) {
            rest.push(files.last())
        } else {
            rest
        }
    }
}

/// The filters loaded from `full`, the bytes of a full filter file where there
/// is one: that filter where it can be loaded, else none.
pub open spec fn full_filters(full: Option<Seq<u8>>) -> Seq<Seq<u8>> {
    match full {
        Some(b) => if usable_filter(b) {
            seq![b]
        } else {
            Seq::empty()
        },
        None => Seq::empty(),
    }
}

/// The state each of the filters parsed from `filters` reports for a key.
pub open spec fn filter_states(
    filters: Seq<Seq<u8>>,
    issuer_hash: Seq<u8>,
    serial: Seq<u8>,
    logs: Seq<(Seq<u8>, u64)>,
    min_coverage: u64,
) -> Seq<i16> {
    filters.map_values(|f: Seq<u8>| filter_state(f, issuer_hash, serial, logs, min_coverage))
}

/// What the migration of the legacy text file has read so far: the
/// distinguished name in force, if any, and the store.
pub type MigrationState = (Option<Seq<u8>>, KvMap);

/// Reads one line of the legacy text file. Empty lines and lines starting with
/// `#` are comments; a line starting with neither TAB nor SPACE names, in
/// base64, the distinguished name in force (none, if it does not decode); a
/// line starting with TAB holds a base64 public key hash revoked for that
/// name as subject, one starting with SPACE a base64 serial number revoked
/// for that name as issuer.
pub open spec fn migrate_line(st: MigrationState, line: Seq<u8>) -> MigrationState {
    if line.len() == 0 || line[0] == 35u8 {
        st
    } else if line[0] != 9u8 && line[0] != 32u8 {
        (base64_decoded(line), st.1)
    } else {
        match (base64_decoded(line.subrange(1, line.len() as int)), st.0) {
            (Some(part), Some(dn)) => {
                let p = if line[0] == 9u8 {
                    KeyPrefix::SubjectPubKey
                } else {
                    KeyPrefix::IssuerSerial
                };
                (st.0, st.1.insert(key2(p, dn, part), KvVal::I64(STATE_ENFORCE as i64)))
            },
            _ => st,
        }
    }
}

/// Reads the lines of the legacy text file in order.
pub open spec fn migrate_lines(st: MigrationState, lines: Seq<Seq<u8>>) -> MigrationState
    decreases lines.len(),
{
    if lines.len() == 0 {
        st
    } else {
        migrate_lines(migrate_line(st, lines[0]), lines.drop_first())
    }
}


} // verus!
