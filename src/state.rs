use vstd::prelude::*;
use crate::codec::{copy_range, decode_cert, hashes_of, Cert, CertHashList};
use crate::error::SecurityStateError;
use crate::filter::{
    aggregate_spec, aggregate_states, filter_state, is_filter_state, logs_of, usable_filter, CRLiteTimestamp,
    Filter, STATE_ENFORCE, STATE_NOT_COVERED, STATE_NOT_ENROLLED, STATE_NO_FILTER, STATE_UNSET,
};
use crate::keys::{
    data_type_key, key1, last_update_key, make_data_type_key, make_key1, make_key2,
    make_last_update_key, KeyPrefix,
};
use crate::kv::{apply_ops, KvOp, KvStore, KvVal, KvValue};
use crate::semantics::{
    CRLITE_FRESHNESS_SECS, CertInput, DATA_TYPE_CERTIFICATE, DATA_TYPE_CRLITE_FILTER_FULL,
    DATA_TYPE_CRLITE_FILTER_INCREMENTAL, EntryView, KvMap, MAX_SANE_UPDATE_TIME, add_certs_from,
    add_certs_result, apply_batch, blob_at, certs_by_subject, crlite_fresh, filter_states,
    full_filters,
    der_found, ders_found, entry_key, has_cert, migrate_lines, prior_data, usable_filters,
    read_state, records_consistent, remove_certs_from, revocation_state, subject_list,
};
use crate::outside::{base64_decode, sha256, sha256_of};

verus! {

/// A revocation entry of a batch: a key prefix, two base64-encoded key parts
/// and a state.
pub struct EncodedSecurityState {
    pub prefix: KeyPrefix,
    pub key_part_1_base64: Vec<u8>,
    pub key_part_2_base64: Vec<u8>,
    pub state: i16,
}

impl View for EncodedSecurityState {
    type V = EntryView;

    open spec fn view(&self) -> EntryView {
        (self.prefix, self.key_part_1_base64@, self.key_part_2_base64@, self.state)
    }
}

impl EncodedSecurityState {
    pub fn new(
        prefix: KeyPrefix,
        key_part_1_base64: Vec<u8>,
        key_part_2_base64: Vec<u8>,
        state: i16,
    ) -> (r: EncodedSecurityState)
        ensures
            r@ == (prefix, key_part_1_base64@, key_part_2_base64@, state),
    {
        EncodedSecurityState { prefix, key_part_1_base64, key_part_2_base64, state }
    }

    /// The key this entry is stored under; an error where a part does not decode.
    pub fn key(&self) -> (r: Result<Vec<u8>, SecurityStateError>)
        ensures
            match r {
                Ok(k) => entry_key(self.prefix, self.key_part_1_base64@, self.key_part_2_base64@)
                    == Some(k@),
                Err(e) => entry_key(
                    self.prefix,
                    self.key_part_1_base64@,
                    self.key_part_2_base64@,
                ) is None && e == SecurityStateError::MalformedRecord,
            },
    {
        let a = match base64_decode(self.key_part_1_base64.as_slice()) {
            Some(a) => a,
            None => return Err(SecurityStateError::MalformedRecord),
        };
        let b = match base64_decode(self.key_part_2_base64.as_slice()) {
            Some(b) => b,
            None => return Err(SecurityStateError::MalformedRecord),
        };
        Ok(make_key2(self.prefix, a.as_slice(), b.as_slice()))
    }

    pub fn state(&self) -> (r: i16)
        ensures
            r == self.state,
    {
        self.state
    }
}

/// The store, when open, is well formed.
pub closed spec fn store_wf(store: Option<KvStore>) -> bool {
    store matches Some(s) ==> s.wf()
}

/// Every filter can be queried.
pub closed spec fn filters_usable(filters: Seq<Filter>) -> bool {
    forall|i: int| 0 <= i < filters.len() ==> usable_filter(#[trigger] filters[i]@)
}

/// The revocation and certificate state: the store once opened, the loaded
/// CRLite filters (full filter first, then deltas in order of arrival), and
/// the number of operations dispatched but not yet completed.
pub struct SecurityState {
    store: Option<KvStore>,
    crlite_filters: Vec<Filter>,
    remaining_ops: i32,
}

impl SecurityState {
    /// The store, when open, is well formed, and every loaded filter can be
    /// queried.
    pub closed spec fn wf(&self) -> bool {
        &&& store_wf(self.store)
        &&& filters_usable(self.crlite_filters@)
    }

    /// Whether the store is open.
    pub closed spec fn is_open(&self) -> bool {
        self.store is Some
    }

    /// The contents of the store; empty while it is closed.
    pub closed spec fn kv(&self) -> KvMap {
        match self.store {
            Some(s) => s@,
            None => Map::empty(),
        }
    }

    /// The contents of the store as last made durable; empty while it is closed.
    pub closed spec fn durable_kv(&self) -> KvMap {
        match self.store {
            Some(s) => s.durable(),
            None => Map::empty(),
        }
    }

    /// The bytes of the loaded filters, in order: the full filter first, then
    /// the deltas.
    pub closed spec fn filters(&self) -> Seq<Seq<u8>> {
        self.crlite_filters@.map_values(|f: Filter| f@)
    }

    /// The number of loaded filters.
    pub open spec fn filter_count(&self) -> nat {
        self.filters().len()
    }

    /// The number of outstanding operations.
    pub closed spec fn outstanding(&self) -> i32 {
        self.remaining_ops
    }

    /// A state whose store is not yet open, with no filters loaded.
    pub fn new() -> (r: SecurityState)
        ensures
            r.wf(),
            !r.is_open(),
            r.filters() == Seq::<Seq<u8>>::empty(),
            r.outstanding() == 0,
    {
        let r = SecurityState { store: None, crlite_filters: Vec::new(), remaining_ops: 0 };
        assert(r.filters() =~= Seq::<Seq<u8>>::empty());
        r
    }

    pub fn db_needs_opening(&self) -> (r: bool)
        ensures
            r == !self.is_open(),
    {
        self.store.is_none()
    }

    /// The value stored under `key`; `None` also while the store is closed.
    pub fn read_value(&self, key: &[u8]) -> (r: Option<KvValue>)
        requires
            self.wf(),
        ensures
            match r {
                Some(v) => self.kv().contains_key(key@) && self.kv()[key@] == v@,
                None => !self.kv().contains_key(key@),
            },
    {
        match &self.store {
            Some(s) => s.get(key),
            None => None,
        }
    }

    /// The writes not yet made durable, oldest first; from here on they count
    /// as durable. Applied in order to the durable contents they give the
    /// contents.
    pub fn take_pending_writes(&mut self) -> (r: Vec<KvOp>)
        requires
            old(self).wf(),
        ensures
            final(self).wf(),
            apply_ops(old(self).durable_kv(), r@.map_values(|op: KvOp| op@)) == old(self).kv(),
            final(self).durable_kv() == old(self).kv(),
            final(self).kv() == old(self).kv(),
            final(self).is_open() == old(self).is_open(),
            final(self).filters() == old(self).filters(),
            final(self).outstanding() == old(self).outstanding(),
    {
        match &mut self.store {
            Some(s) => s.take_pending(),
            None => {
                let r: Vec<KvOp> = Vec::new();
                assert(r@.map_values(|op: KvOp| op@) =~= Seq::<crate::kv::KvOpVal>::empty());
                r
            },
        }
    }

    /// Counts an operation as dispatched; the count wraps around.
    pub fn note_operation_started(&mut self)
        ensures
            final(self).outstanding() == old(self).outstanding().wrapping_add(1),
            final(self).kv() == old(self).kv(),
            final(self).wf() == old(self).wf(),
            final(self).is_open() == old(self).is_open(),
            final(self).filters() == old(self).filters(),
    {
        self.remaining_ops = self.remaining_ops.wrapping_add(1);
    }

    /// Counts an operation as completed; the count wraps around.
    pub fn note_operation_finished(&mut self)
        ensures
            final(self).outstanding() == old(self).outstanding().wrapping_sub(1),
            final(self).kv() == old(self).kv(),
            final(self).wf() == old(self).wf(),
            final(self).is_open() == old(self).is_open(),
            final(self).filters() == old(self).filters(),
    {
        self.remaining_ops = self.remaining_ops.wrapping_sub(1);
    }

    /// The number of operations dispatched but not completed.
    pub fn remaining_operation_count(&self) -> (r: i32)
        ensures
            r == self.outstanding(),
    {
        self.remaining_ops
    }

    fn read_entry(&self, key: &[u8]) -> (r: Result<Option<i16>, SecurityStateError>)
        requires
            self.wf(),
            self.is_open(),
        ensures
            r == read_state(self.kv(), key@),
    {
        match self.read_value(key) {
            None => Ok(None),
            Some(KvValue::I64(i)) => {
                if -32768 <= i && i <= 32767 {
                    Ok(Some(i as i16))
                } else {
                    Err(SecurityStateError::MalformedRecord)
                }
            },
            Some(_) => Err(SecurityStateError::MalformedRecord),
        }
    }

    /// Whether data of type `data_type` was stored before.
    pub fn get_has_prior_data(&self, data_type: u8) -> (r: Result<bool, SecurityStateError>)
        requires
            self.wf(),
        ensures
            (data_type == DATA_TYPE_CRLITE_FILTER_FULL || data_type
                == DATA_TYPE_CRLITE_FILTER_INCREMENTAL || self.is_open()) ==> r == prior_data(
                self.kv(),
                self.filter_count(),
                data_type,
            ),
            !(data_type == DATA_TYPE_CRLITE_FILTER_FULL || data_type
                == DATA_TYPE_CRLITE_FILTER_INCREMENTAL || self.is_open()) ==> r == Err::<
                bool,
                SecurityStateError,
            >(SecurityStateError::NotInitialized),
    {
        if data_type == DATA_TYPE_CRLITE_FILTER_FULL {
            return Ok(self.crlite_filters.len() > 0);
        }
        if data_type == DATA_TYPE_CRLITE_FILTER_INCREMENTAL {
            return Ok(self.crlite_filters.len() > 1);
        }
        if self.store.is_none() {
            return Err(SecurityStateError::NotInitialized);
        }
        let key = make_data_type_key(data_type);
        match self.read_value(key.as_slice()) {
            None => Ok(false),
            Some(KvValue::Bool(b)) => if b {
                Ok(true)
            } else {
                Err(SecurityStateError::MalformedRecord)
            },
            Some(_) => Err(SecurityStateError::MalformedRecord),
        }
    }

    /// Writes a batch of revocation entries and marks data of type `typ` as
    /// present; entries whose key parts do not decode are skipped.
    pub fn set_batch_state(&mut self, entries: &[EncodedSecurityState], typ: u8) -> (r: Result<
        (),
        SecurityStateError,
    >)
        requires
            old(self).wf(),
        ensures
            final(self).wf(),
            final(self).is_open() == old(self).is_open(),
            final(self).filters() == old(self).filters(),
            final(self).outstanding() == old(self).outstanding(),
            old(self).is_open() ==> r is Ok && final(self).kv() == apply_batch(
                old(self).kv().insert(data_type_key(typ), KvVal::Bool(true)),
                entries@.map_values(|e: EncodedSecurityState| e@),
            ),
            !old(self).is_open() ==> r == Err::<(), SecurityStateError>(
                SecurityStateError::NotInitialized,
            ),
    {
        let ghost all = entries@.map_values(|e: EncodedSecurityState| e@);
        let store = match &mut self.store {
            Some(s) => s,
            None => return Err(SecurityStateError::NotInitialized),
        };
        let flag = make_data_type_key(typ);
        store.put(flag.as_slice(), KvValue::Bool(true));
        let ghost start = store@;
        let n = entries.len();
        let mut i: usize = 0;
        assert(all.subrange(0, n as int) =~= all);
        while i < n
            invariant
                n == entries@.len(),
                all == entries@.map_values(|e: EncodedSecurityState| e@),
                i <= n,
                store.wf(),
                apply_batch(start, all) == apply_batch(store@, all.subrange(i as int, n as int)),
            decreases n - i,
        {
            let ghost rest = all.subrange(i as int, n as int);
            assert(rest.drop_first() =~= all.subrange(i + 1, n as int));
            assert(rest[0] == entries@[i as int]@);
            match entries[i].key() {
                Ok(key) => store.put(key.as_slice(), KvValue::I64(entries[i].state() as i64)),
                Err(_) => {},
            }
            i = i + 1;
        }
        assert(all.subrange(n as int, n as int) =~= Seq::<EntryView>::empty());
        Ok(())
    }

    /// The revocation state of a certificate, by issuer and serial number or
    /// by subject and the SHA-256 hash of its public key.
    pub fn get_revocation_state(
        &self,
        issuer: &[u8],
        serial: &[u8],
        subject: &[u8],
        pub_key: &[u8],
    ) -> (r: Result<i16, SecurityStateError>)
        requires
            self.wf(),
        ensures
            self.is_open() ==> r == revocation_state(
                self.kv(),
                issuer@,
                serial@,
                subject@,
                sha256_of(pub_key@),
            ),
            !self.is_open() ==> r == Err::<i16, SecurityStateError>(
                SecurityStateError::NotInitialized,
            ),
    {
        if self.store.is_none() {
            return Err(SecurityStateError::NotInitialized);
        }
        let pub_key_hash = sha256(pub_key);
        let subject_pubkey = make_key2(KeyPrefix::SubjectPubKey, subject, pub_key_hash.as_slice());
        let issuer_serial = make_key2(KeyPrefix::IssuerSerial, issuer, serial);
        let st = match self.read_entry(issuer_serial.as_slice()) {
            Ok(Some(v)) => v,
            Ok(None) => STATE_UNSET,
            Err(e) => return Err(e),
        };
        if st != STATE_UNSET {
            return Ok(st);
        }
        match self.read_entry(subject_pubkey.as_slice()) {
            Ok(Some(v)) => Ok(v),
            Ok(None) => Ok(STATE_UNSET),
            Err(e) => Err(e),
        }
    }

    /// Records `now` as the time of the last CRLite update; `None` stands for
    /// a clock that reads before the Unix epoch.
    pub fn note_crlite_update_time(&mut self, now: Option<u64>) -> (r: Result<(), SecurityStateError>)
        requires
            old(self).wf(),
        ensures
            final(self).wf(),
            final(self).is_open() == old(self).is_open(),
            final(self).filters() == old(self).filters(),
            final(self).outstanding() == old(self).outstanding(),
            match now {
                None => r == Err::<(), SecurityStateError>(SecurityStateError::Clock)
                    && final(self).kv() == old(self).kv(),
                Some(t) => if old(self).is_open() {
                    r is Ok && final(self).kv() == old(self).kv().insert(
                        last_update_key(),
                        KvVal::U64(t),
                    )
                } else {
                    r == Err::<(), SecurityStateError>(SecurityStateError::NotInitialized)
                },
            },
    {
        let seconds = match now {
            Some(t) => t,
            None => return Err(SecurityStateError::Clock),
        };
        match &mut self.store {
            Some(s) => {
                let key = make_last_update_key();
                s.put(key.as_slice(), KvValue::U64(seconds));
                Ok(())
            },
            None => Err(SecurityStateError::NotInitialized),
        }
    }

    /// Stores a batch of certificates, each given as base64 DER, base64
    /// subject and trust, and indexes each under its subject. All of the batch
    /// is written, or none of it.
    pub fn add_certs(&mut self, certs: &[(Vec<u8>, Vec<u8>, i16)]) -> (r: Result<
        (),
        SecurityStateError,
    >)
        requires
            old(self).wf(),
        ensures
            final(self).wf(),
            final(self).is_open() == old(self).is_open(),
            final(self).filters() == old(self).filters(),
            final(self).outstanding() == old(self).outstanding(),
            !old(self).is_open() ==> r == Err::<(), SecurityStateError>(
                SecurityStateError::NotInitialized,
            ),
            old(self).is_open() && r is Ok && records_consistent(old(self).kv()) ==> records_consistent(
                final(self).kv(),
            ),
            old(self).is_open() ==> match add_certs_result(
                old(self).kv(),
                certs@.map_values(|c: (Vec<u8>, Vec<u8>, i16)| (c.0@, c.1@, c.2)),
            ) {
                Ok(m) => r is Ok && final(self).kv() == m,
                Err(e) => r == Err::<(), SecurityStateError>(e) && final(self).kv() == old(
                    self,
                ).kv(),
            },
    {
        let ghost all = certs@.map_values(|c: (Vec<u8>, Vec<u8>, i16)| (c.0@, c.1@, c.2));
        proof {
            if records_consistent(old(self).kv()) {
                crate::lemmas::lemma_add_certs_consistent(old(self).kv(), all);
            }
        }
        let mut work = match &self.store {
            Some(s) => s.snapshot(),
            None => return Err(SecurityStateError::NotInitialized),
        };
        let flag = make_data_type_key(DATA_TYPE_CERTIFICATE);
        work.put(flag.as_slice(), KvValue::Bool(true));
        let n = certs.len();
        let mut i: usize = 0;
        assert(all.subrange(0, n as int) =~= all);
        while i < n
            invariant
                n == certs@.len(),
                all == certs@.map_values(|c: (Vec<u8>, Vec<u8>, i16)| (c.0@, c.1@, c.2)),
                i <= n,
                work.wf(),
                *self == *old(self),
                self.wf(),
                old(self).is_open(),
                add_certs_result(old(self).kv(), all) == add_certs_from(
                    work@,
                    all.subrange(i as int, n as int),
                ),
            decreases n - i,
        {
            let ghost rest = all.subrange(i as int, n as int);
            assert(rest.drop_first() =~= all.subrange(i + 1, n as int));
            assert(rest[0] == all[i as int]);
            let entry = &certs[i];
            let der = base64_decode(entry.0.as_slice());
            let subject = base64_decode(entry.1.as_slice());
            if let (Some(der), Some(subject)) = (der, subject) {
                let cert_hash = sha256(der.as_slice());
                let cert = match Cert::new(der.as_slice(), subject.as_slice(), entry.2) {
                    Ok(c) => c,
                    Err(e) => return Err(e),
                };
                let cert_bytes = match cert.to_bytes() {
                    Ok(b) => b,
                    Err(e) => return Err(e),
                };
                let cert_key = make_key1(KeyPrefix::Cert, cert_hash.as_slice());
                work.put(cert_key.as_slice(), KvValue::Blob(cert_bytes));
                let subject_key = make_key1(KeyPrefix::Subject, subject.as_slice());
                let old_list = match work.get(subject_key.as_slice()) {
                    Some(KvValue::Blob(b)) => b,
                    _ => Vec::new(),
                };
                assert(old_list@ == subject_list(work@, subject@));
                let new_list = match CertHashList::add(old_list.as_slice(), cert_hash.as_slice()) {
                    Ok(l) => l,
                    Err(e) => return Err(e),
                };
                if new_list.len() != old_list.len() {
                    work.put(subject_key.as_slice(), KvValue::Blob(new_list));
                }
            }
            i = i + 1;
        }
        assert(all.subrange(n as int, n as int) =~= Seq::<CertInput>::empty());
        self.store = Some(work);
        Ok(())
    }

    /// Removes the certificates with the given base64 hashes, and their hashes
    /// from their subjects' lists. All of the batch is written, or none of it.
    pub fn remove_certs_by_hashes(&mut self, hashes_base64: &[Vec<u8>]) -> (r: Result<
        (),
        SecurityStateError,
    >)
        requires
            old(self).wf(),
        ensures
            final(self).wf(),
            final(self).is_open() == old(self).is_open(),
            final(self).filters() == old(self).filters(),
            final(self).outstanding() == old(self).outstanding(),
            !old(self).is_open() ==> r == Err::<(), SecurityStateError>(
                SecurityStateError::NotInitialized,
            ),
            old(self).is_open() && r is Ok && records_consistent(old(self).kv()) ==> records_consistent(
                final(self).kv(),
            ),
            old(self).is_open() ==> match remove_certs_from(
                old(self).kv(),
                old(self).kv(),
                hashes_base64@.map_values(|h: Vec<u8>| h@),
            ) {
                Ok(m) => r is Ok && final(self).kv() == m,
                Err(e) => r == Err::<(), SecurityStateError>(e) && final(self).kv() == old(
                    self,
                ).kv(),
            },
    {
        let ghost all = hashes_base64@.map_values(|h: Vec<u8>| h@);
        proof {
            if records_consistent(old(self).kv()) {
                crate::lemmas::lemma_remove_certs_consistent(old(self).kv(), old(self).kv(), all);
            }
        }
        let reader = match &self.store {
            Some(s) => s,
            None => return Err(SecurityStateError::NotInitialized),
        };
        let mut work = reader.snapshot();
        let n = hashes_base64.len();
        let mut i: usize = 0;
        assert(all.subrange(0, n as int) =~= all);
        while i < n
            invariant
                n == hashes_base64@.len(),
                all == hashes_base64@.map_values(|h: Vec<u8>| h@),
                i <= n,
                work.wf(),
                reader.wf(),
                self.store == Some(*reader),
                *self == *old(self),
                self.wf(),
                remove_certs_from(old(self).kv(), old(self).kv(), all) == remove_certs_from(
                    old(self).kv(),
                    work@,
                    all.subrange(i as int, n as int),
                ),
            decreases n - i,
        {
            let ghost rest = all.subrange(i as int, n as int);
            assert(rest.drop_first() =~= all.subrange(i + 1, n as int));
            assert(rest[0] == all[i as int]);
            if let Some(hash) = base64_decode(hashes_base64[i].as_slice()) {
                let cert_key = make_key1(KeyPrefix::Cert, hash.as_slice());
                if let Some(KvValue::Blob(cert_bytes)) = reader.get(cert_key.as_slice()) {
                    if let Ok(cert) = Cert::from_bytes(cert_bytes.as_slice()) {
                        let subject_key = make_key1(KeyPrefix::Subject, cert.subject.as_slice());
                        let old_list = match work.get(subject_key.as_slice()) {
                            Some(KvValue::Blob(b)) => b,
                            _ => Vec::new(),
                        };
                        assert(old_list@ == subject_list(work@, cert.subject@));
                        let new_list = match CertHashList::remove(
                            old_list.as_slice(),
                            hash.as_slice(),
                        ) {
                            Ok(l) => l,
                            Err(e) => return Err(e),
                        };
                        if new_list.len() != old_list.len() {
                            work.put(subject_key.as_slice(), KvValue::Blob(new_list));
                        }
                    }
                }
                work.delete(cert_key.as_slice());
            }
            i = i + 1;
        }
        assert(all.subrange(n as int, n as int) =~= Seq::<Seq<u8>>::empty());
        self.store = Some(work);
        Ok(())
    }

    /// The DER encodings of the stored certificates listed for `subject`, in
    /// the list's order, in `certs`, which is cleared first. Entries whose
    /// record is missing or malformed are passed over.
    pub fn find_certs_by_subject(&self, subject: &[u8], certs: &mut Vec<Vec<u8>>) -> (r: Result<
        (),
        SecurityStateError,
    >)
        requires
            self.wf(),
        ensures
            !self.is_open() ==> r == Err::<(), SecurityStateError>(
                SecurityStateError::NotInitialized,
            ) && final(certs)@ == old(certs)@,
            self.is_open() ==> match certs_by_subject(self.kv(), subject@) {
                Ok(ders) => r is Ok && final(certs)@.map_values(|d: Vec<u8>| d@) == ders,
                Err(e) => r == Err::<(), SecurityStateError>(e) && final(certs)@.len() == 0,
            },
    {
        let store = match &self.store {
            Some(s) => s,
            None => return Err(SecurityStateError::NotInitialized),
        };
        certs.clear();
        let subject_key = make_key1(KeyPrefix::Subject, subject);
        let list_bytes = match store.get(subject_key.as_slice()) {
            Some(KvValue::Blob(b)) => b,
            _ => Vec::new(),
        };
        assert(list_bytes@ == subject_list(self.kv(), subject@));
        let list = match CertHashList::new(list_bytes.as_slice()) {
            Ok(l) => l,
            Err(e) => return Err(e),
        };
        let hashes = list.into_hashes();
        let ghost hs = hashes_of(list_bytes@);
        assert(hashes@.map_values(|h: Vec<u8>| h@) == hs);
        let n = hashes.len();
        let mut i: usize = 0;
        assert(hs.subrange(0, n as int) =~= hs);
        assert(certs@.map_values(|d: Vec<u8>| d@) =~= Seq::<Seq<u8>>::empty());
        while i < n
            invariant
                n == hashes@.len(),
                hs.len() == n,
                forall|j: int| 0 <= j < n ==> (#[trigger] hashes@[j])@ == hs[j],
                i <= n,
                store.wf(),
                self.store == Some(*store),
                certs@.map_values(|d: Vec<u8>| d@) + ders_found(
                    self.kv(),
                    hs.subrange(i as int, n as int),
                ) == ders_found(self.kv(), hs),
            decreases n - i,
        {
            let ghost rest = hs.subrange(i as int, n as int);
            let ghost before = certs@.map_values(|d: Vec<u8>| d@);
            assert(rest.drop_first() =~= hs.subrange(i + 1, n as int));
            assert(rest[0] == hashes@[i as int]@);
            let cert_key = make_key1(KeyPrefix::Cert, hashes[i].as_slice());
            if let Some(KvValue::Blob(cert_bytes)) = store.get(cert_key.as_slice()) {
                if let Ok(cert) = Cert::from_bytes(cert_bytes.as_slice()) {
                    certs.push(cert.der);
                }
            }
            let ghost after = certs@.map_values(|d: Vec<u8>| d@);
            assert(after =~= before + der_found(self.kv(), hs[i as int]));
            assert(before + ders_found(self.kv(), rest) =~= after + ders_found(
                self.kv(),
                hs.subrange(i + 1, n as int),
            ));
            i = i + 1;
        }
        assert(hs.subrange(n as int, n as int) =~= Seq::<Seq<u8>>::empty());
        assert(certs@.map_values(|d: Vec<u8>| d@) + Seq::<Seq<u8>>::empty() =~= certs@.map_values(
            |d: Vec<u8>| d@,
        ));
        Ok(())
    }

    /// Whether a certificate record is stored under `cert_hash`.
    pub fn has_cert_by_hash(&self, cert_hash: &[u8]) -> (r: Result<bool, SecurityStateError>)
        requires
            self.wf(),
        ensures
            self.is_open() ==> r == Ok::<bool, SecurityStateError>(has_cert(self.kv(), cert_hash@)),
            !self.is_open() ==> r == Err::<bool, SecurityStateError>(
                SecurityStateError::NotInitialized,
            ),
    {
        if self.store.is_none() {
            return Err(SecurityStateError::NotInitialized);
        }
        let cert_key = make_key1(KeyPrefix::Cert, cert_hash);
        match self.read_value(cert_key.as_slice()) {
            Some(KvValue::Blob(_)) => Ok(true),
            _ => Ok(false),
        }
    }

    /// The DER encoding of the certificate stored under `cert_hash`: `None`
    /// where no record is stored, an error where the record is malformed.
    pub fn find_cert_by_hash(&self, cert_hash: &[u8]) -> (r: Result<
        Option<Vec<u8>>,
        SecurityStateError,
    >)
        requires
            self.wf(),
        ensures
            !self.is_open() ==> r == Err::<Option<Vec<u8>>, SecurityStateError>(
                SecurityStateError::NotInitialized,
            ),
            self.is_open() ==> match blob_at(self.kv(), key1(KeyPrefix::Cert, cert_hash@)) {
                None => r matches Ok(None),
                Some(cb) => match decode_cert(cb) {
                    Some(c) => r matches Ok(Some(der)) && der@ == c.0,
                    None => r == Err::<Option<Vec<u8>>, SecurityStateError>(
                        SecurityStateError::MalformedRecord,
                    ),
                },
            },
    {
        if self.store.is_none() {
            return Err(SecurityStateError::NotInitialized);
        }
        let cert_key = make_key1(KeyPrefix::Cert, cert_hash);
        match self.read_value(cert_key.as_slice()) {
            Some(KvValue::Blob(cert_bytes)) => match Cert::from_bytes(cert_bytes.as_slice()) {
                Ok(cert) => Ok(Some(cert.der)),
                Err(e) => Err(e),
            },
            _ => Ok(None),
        }
    }

    /// Whether a certificate record is stored under every one of `cert_hashes`.
    pub fn has_all_certs_by_hash(&self, cert_hashes: &[Vec<u8>]) -> (r: Result<
        bool,
        SecurityStateError,
    >)
        requires
            self.wf(),
        ensures
            !self.is_open() && cert_hashes@.len() > 0 ==> r == Err::<bool, SecurityStateError>(
                SecurityStateError::NotInitialized,
            ),
            self.is_open() || cert_hashes@.len() == 0 ==> r == Ok::<bool, SecurityStateError>(
                forall|i: int|
                    0 <= i < cert_hashes@.len() ==> has_cert(self.kv(), #[trigger] cert_hashes@[i]@),
            ),
    {
        let n = cert_hashes.len();
        let mut i: usize = 0;
        while i < n
            invariant
                n == cert_hashes@.len(),
                i <= n,
                self.wf(),
                self.is_open() || i == 0,
                forall|j: int| 0 <= j < i ==> has_cert(self.kv(), #[trigger] cert_hashes@[j]@),
            decreases n - i,
        {
            match self.has_cert_by_hash(cert_hashes[i].as_slice()) {
                Ok(true) => {},
                Ok(false) => return Ok(false),
                Err(e) => return Err(e),
            }
            i = i + 1;
        }
        Ok(true)
    }

    fn load_crlite_filter(&mut self, full_filter: Option<&[u8]>) -> (r: Result<(), SecurityStateError>)
        requires
            old(self).wf(),
        ensures
            final(self).wf(),
            final(self).kv() == old(self).kv(),
            final(self).durable_kv() == old(self).durable_kv(),
            final(self).is_open() == old(self).is_open(),
            final(self).outstanding() == old(self).outstanding(),
            old(self).filter_count() > 0 ==> r == Err::<(), SecurityStateError>(
                SecurityStateError::Internal,
            ) && final(self).filters() == old(self).filters(),
            old(self).filter_count() == 0 ==> r is Ok && final(self).filters() == full_filters(
                match full_filter {
                    Some(b) => Some(b@),
                    None => None,
                },
            ),
    {
        if self.crlite_filters.len() > 0 {
            return Err(SecurityStateError::Internal);
        }
        let ghost before = self.crlite_filters@;
        if let Ok(Some(filter)) = Filter::load(full_filter) {
            self.crlite_filters.push(filter);
            assert(self.filters() =~= seq![filter@]);
        } else {
            assert(self.filters() =~= Seq::<Seq<u8>>::empty());
        }
        Ok(())
    }

    /// Opens the store, once: `records` are the records the database holds,
    /// `legacy_lines` the lines of the legacy revocation file where there is
    /// one, `full_filter` the bytes of the full filter file where there is
    /// one. The legacy lines are migrated into the store; a full filter that
    /// cannot be loaded is left out. An open store is left as it is.
    pub fn open_db(
        &mut self,
        records: &Vec<(Vec<u8>, KvValue)>,
        legacy_lines: Option<&Vec<Vec<u8>>>,
        full_filter: Option<&[u8]>,
    ) -> (r: Result<(), SecurityStateError>)
        requires
            old(self).wf(),
        ensures
            final(self).wf(),
            final(self).is_open(),
            final(self).outstanding() == old(self).outstanding(),
            old(self).is_open() ==> r is Ok && *final(self) == *old(self),
            !old(self).is_open() ==> {
                let loaded = crate::kv::records_map(
                    records@.map_values(|e: (Vec<u8>, KvValue)| (e.0@, e.1@)),
                );
                &&& final(self).durable_kv() == loaded
                &&& final(self).kv() == match legacy_lines {
                    Some(lines) => migrate_lines(
                        (None, loaded),
                        lines@.map_values(|l: Vec<u8>| l@),
                    ).1,
                    None => loaded,
                }
                &&& old(self).filter_count() > 0 ==> r == Err::<(), SecurityStateError>(
                    SecurityStateError::Internal,
                ) && final(self).filters() == old(self).filters()
                &&& old(self).filter_count() == 0 ==> r is Ok && final(self).filters()
                    == full_filters(
                    match full_filter {
                        Some(b) => Some(b@),
                        None => None,
                    },
                )
            },
    {
        if self.store.is_some() {
            return Ok(());
        }
        let mut store = KvStore::from_records(records);
        if let Some(lines) = legacy_lines {
            migrate(&mut store, lines.as_slice());
        }
        self.store = Some(store);
        self.load_crlite_filter(full_filter)
    }

    /// Installs a new full filter: drops every loaded filter, records `now` as
    /// the update time, and loads `filter` where it can be loaded.
    pub fn set_full_crlite_filter(&mut self, filter: &[u8], now: Option<u64>) -> (r: Result<
        (),
        SecurityStateError,
    >)
        requires
            old(self).wf(),
        ensures
            final(self).wf(),
            final(self).is_open() == old(self).is_open(),
            final(self).outstanding() == old(self).outstanding(),
            match now {
                None => r == Err::<(), SecurityStateError>(SecurityStateError::Clock)
                    && final(self).kv() == old(self).kv() && final(self).filters() == Seq::<
                    Seq<u8>,
                >::empty(),
                Some(t) => if old(self).is_open() {
                    &&& r is Ok
                    &&& final(self).kv() == old(self).kv().insert(last_update_key(), KvVal::U64(t))
                    &&& final(self).filters() == full_filters(Some(filter@))
                } else {
                    r == Err::<(), SecurityStateError>(SecurityStateError::NotInitialized)
                        && final(self).filters() == Seq::<Seq<u8>>::empty()
                },
            },
    {
        self.crlite_filters.clear();
        assert(self.filters() =~= Seq::<Seq<u8>>::empty());
        match self.note_crlite_update_time(now) {
            Ok(()) => {},
            Err(e) => return Err(e),
        }
        self.load_crlite_filter(Some(filter))
    }

    /// Adds a delta filter where `delta` can be loaded, and records `now` as
    /// the update time.
    pub fn add_crlite_delta(&mut self, delta: &[u8], now: Option<u64>) -> (r: Result<
        (),
        SecurityStateError,
    >)
        requires
            old(self).wf(),
        ensures
            final(self).wf(),
            final(self).is_open() == old(self).is_open(),
            final(self).outstanding() == old(self).outstanding(),
            final(self).filters() == old(self).filters() + if usable_filter(delta@) {
                seq![delta@]
            } else {
                Seq::<Seq<u8>>::empty()
            },
            match now {
                None => r == Err::<(), SecurityStateError>(SecurityStateError::Clock)
                    && final(self).kv() == old(self).kv(),
                Some(t) => if old(self).is_open() {
                    r is Ok && final(self).kv() == old(self).kv().insert(
                        last_update_key(),
                        KvVal::U64(t),
                    )
                } else {
                    r == Err::<(), SecurityStateError>(SecurityStateError::NotInitialized)
                },
            },
    {
        if let Ok(Some(filter)) = Filter::load(Some(delta)) {
            self.crlite_filters.push(filter);
            assert(self.filters() =~= old(self).filters() + seq![delta@]);
        } else {
            assert(self.filters() =~= old(self).filters() + Seq::<Seq<u8>>::empty());
        }
        self.note_crlite_update_time(now)
    }

    /// Appends, in order, the delta filters among `delta_files` that can be
    /// loaded.
    pub fn append_crlite_deltas(&mut self, delta_files: &[Vec<u8>])
        requires
            old(self).wf(),
        ensures
            final(self).wf(),
            final(self).kv() == old(self).kv(),
            final(self).durable_kv() == old(self).durable_kv(),
            final(self).is_open() == old(self).is_open(),
            final(self).outstanding() == old(self).outstanding(),
            final(self).filters() == old(self).filters() + usable_filters(
                delta_files@.map_values(|f: Vec<u8>| f@),
            ),
    {
        let ghost all = delta_files@.map_values(|f: Vec<u8>| f@);
        let n = delta_files.len();
        let mut i: usize = 0;
        assert(old(self).filters() + usable_filters(all.subrange(0, 0)) =~= old(self).filters());
        while i < n
            invariant
                n == delta_files@.len(),
                all == delta_files@.map_values(|f: Vec<u8>| f@),
                i <= n,
                self.wf(),
                self.store == old(self).store,
                self.outstanding() == old(self).outstanding(),
                self.filters() == old(self).filters() + usable_filters(all.subrange(0, i as int)),
            decreases n - i,
        {
            let ghost prev = self.filters();
            assert(all.subrange(0, i + 1).drop_last() =~= all.subrange(0, i as int));
            assert(all.subrange(0, i + 1).last() == delta_files@[i as int]@);
            if let Ok(Some(filter)) = Filter::load(Some(delta_files[i].as_slice())) {
                self.crlite_filters.push(filter);
                assert(self.filters() =~= prev.push(filter@));
            }
            i = i + 1;
        }
        assert(all.subrange(0, n as int) =~= all);
    }

    /// The CRLite state of the certificate with the given issuer public key
    /// and serial number, at time `now`: no filter where the data is stale or
    /// no filter is loaded, else the aggregate of the states every loaded
    /// filter reports, a filter's answer counting only when at least
    /// `min_coverage` timestamps fall within its coverage.
    pub fn get_crlite_revocation_state(
        &self,
        issuer_spki: &[u8],
        serial_number: &[u8],
        timestamps: &[CRLiteTimestamp],
        now: Option<u64>,
        min_coverage: u64,
    ) -> (r: i16)
        requires
            self.wf(),
        ensures
            !(self.is_open() && crlite_fresh(self.kv(), now)) || self.filter_count() == 0 ==> r
                == STATE_NO_FILTER,
            self.is_open() && crlite_fresh(self.kv(), now) && self.filter_count() > 0 ==> {
                &&& r == aggregate_spec(
                    filter_states(
                        self.filters(),
                        sha256_of(issuer_spki@),
                        serial_number@,
                        logs_of(timestamps@),
                        min_coverage,
                    ),
                )
                &&& is_filter_state(r)
                &&& timestamps@.len() < min_coverage ==> r == STATE_NOT_COVERED
            },
    {
        if !self.is_crlite_fresh(now) {
            return STATE_NO_FILTER;
        }
        if self.crlite_filters.len() == 0 {
            return STATE_NO_FILTER;
        }
        let issuer_hash = sha256(issuer_spki);
        let ghost expected = filter_states(
            self.filters(),
            issuer_hash@,
            serial_number@,
            logs_of(timestamps@),
            min_coverage,
        );
        let mut states: Vec<i16> = Vec::with_capacity(self.crlite_filters.len());
        let n = self.crlite_filters.len();
        let mut i: usize = 0;
        while i < n
            invariant
                n == self.crlite_filters@.len(),
                self.wf(),
                issuer_hash@.len() == 32,
                issuer_hash@ == sha256_of(issuer_spki@),
                expected == filter_states(
                    self.filters(),
                    issuer_hash@,
                    serial_number@,
                    logs_of(timestamps@),
                    min_coverage,
                ),
                expected.len() == n,
                i <= n,
                states@.len() == i,
                forall|j: int| 0 <= j < i ==> #[trigger] states@[j] == expected[j],
                forall|j: int| 0 <= j < i ==> is_filter_state(#[trigger] states@[j]),
                timestamps@.len() < min_coverage ==> forall|j: int|
                    0 <= j < i ==> #[trigger] states@[j] == STATE_NOT_COVERED,
            decreases n - i,
        {
            assert(usable_filter(self.crlite_filters@[i as int]@));
            let st = self.crlite_filters[i].has(
                issuer_hash.as_slice(),
                serial_number,
                timestamps,
                min_coverage,
            );
            assert(self.filters()[i as int] == self.crlite_filters@[i as int]@);
            assert(expected[i as int] == filter_state(
                self.filters()[i as int],
                issuer_hash@,
                serial_number@,
                logs_of(timestamps@),
                min_coverage,
            ));
            assert(expected[i as int] == st);
            states.push(st);
            i = i + 1;
        }
        assert(states@ =~= expected);
        let r = aggregate_states(states.as_slice());
        proof {
            assert(states@.contains(states@[0]));
            if timestamps@.len() < min_coverage {
                assert(!states@.contains(STATE_ENFORCE));
                assert(!states@.contains(STATE_UNSET));
                assert(!states@.contains(STATE_NOT_ENROLLED));
            }
            assert(is_filter_state(r));
        }
        r
    }

    /// An estimate of the memory each loaded filter holds, in order.
    pub fn filter_sizes(&self) -> (r: Vec<usize>)
        ensures
            r@.len() == self.filter_count(),
    {
        let n = self.crlite_filters.len();
        let mut sizes: Vec<usize> = Vec::with_capacity(n);
        let mut i: usize = 0;
        while i < n
            invariant
                n == self.crlite_filters@.len(),
                i <= n,
                sizes@.len() == i,
            decreases n - i,
        {
            sizes.push(self.crlite_filters[i].approximate_size());
            i = i + 1;
        }
        sizes
    }

    /// Whether the CRLite data is fresh at time `now`.
    pub fn is_crlite_fresh(&self, now: Option<u64>) -> (r: bool)
        requires
            self.wf(),
        ensures
            r == (self.is_open() && crlite_fresh(self.kv(), now)),
    {
        let t = match now {
            Some(t) => t,
            None => return false,
        };
        if self.store.is_none() {
            return false;
        }
        let key = make_last_update_key();
        match self.read_value(key.as_slice()) {
            Some(KvValue::U64(last)) => last <= MAX_SANE_UPDATE_TIME && t < last
                + CRLITE_FRESHNESS_SECS,
            _ => false,
        }
    }
}

/// Migrates the lines of the legacy revocation file into `store`.
fn migrate(store: &mut KvStore, lines: &[Vec<u8>])
    requires
        old(store).wf(),
    ensures
        final(store).wf(),
        final(store).durable() == old(store).durable(),
        final(store)@ == migrate_lines(
            (None, old(store)@),
            lines@.map_values(|l: Vec<u8>| l@),
        ).1,
{
    let ghost all = lines@.map_values(|l: Vec<u8>| l@);
    let mut dn: Option<Vec<u8>> = None;
    let n = lines.len();
    let mut i: usize = 0;
    assert(all.subrange(0, n as int) =~= all);
    while i < n
        invariant
            n == lines@.len(),
            all == lines@.map_values(|l: Vec<u8>| l@),
            i <= n,
            store.wf(),
            store.durable() == old(store).durable(),
            migrate_lines((None, old(store)@), all) == migrate_lines(
                (
                    match dn {
                        Some(d) => Some(d@),
                        None => None,
                    },
                    store@,
                ),
                all.subrange(i as int, n as int),
            ),
        decreases n - i,
    {
        let ghost rest = all.subrange(i as int, n as int);
        assert(rest.drop_first() =~= all.subrange(i + 1, n as int));
        assert(rest[0] == lines@[i as int]@);
        let line = &lines[i];
        let len = line.len();
        if len == 0 || line[0] == 35u8 {
        } else if line[0] != 9u8 && line[0] != 32u8 {
            dn = base64_decode(line.as_slice());
        } else {
            let tail = copy_range(line.as_slice(), 1, len);
            if let Some(part) = base64_decode(tail.as_slice()) {
                if let Some(name) = &dn {
                    let prefix = if line[0] == 9u8 {
                        KeyPrefix::SubjectPubKey
                    } else {
                        KeyPrefix::IssuerSerial
                    };
                    let key = make_key2(prefix, name.as_slice(), part.as_slice());
                    store.put(key.as_slice(), KvValue::I64(STATE_ENFORCE as i64));
                }
            }
        }
        i = i + 1;
    }
    assert(all.subrange(n as int, n as int) =~= Seq::<Seq<u8>>::empty());
}

} // verus!
