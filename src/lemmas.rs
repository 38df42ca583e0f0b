//! Laws of the state: what a sequence of operations on the store amounts to.

use vstd::prelude::*;
use crate::codec::{
    decode_cert, encode_cert, hashes_of, list_add, list_remove, list_well_formed, MAX_FIELD_LEN,
};
use crate::error::SecurityStateError;
use crate::filter::{
    aggregate_spec, filter_state, is_filter_state, lemma_aggregation_precedence, STATE_ENFORCE,
    STATE_UNSET,
};
use crate::keys::{data_type_key, key1, key2, last_update_key, KeyPrefix};
use crate::kv::KvVal;
use crate::outside::{base64_decoded, sha256_of};
use crate::semantics::{
    records_consistent,
    filter_states,
    CRLITE_FRESHNESS_SECS, CertInput, DATA_TYPE_CERTIFICATE, KvMap, MAX_SANE_UPDATE_TIME,
    add_cert_step, add_certs_from, add_certs_result, blob_at, certs_by_subject, crlite_fresh,
    der_found, ders_found, has_cert, read_state, remove_cert_step, remove_certs_from,
    revocation_state, subject_list,
};

verus! {

/// Revocation lookup precedence: an issuer-and-serial entry that revokes wins
/// over anything stored by subject and key; where that entry is absent or
/// unset, the subject-and-key entry decides; and the state is unset only where
/// neither entry revokes or holds another state.
pub proof fn lemma_revocation_precedence(
    m: KvMap,
    issuer: Seq<u8>,
    serial: Seq<u8>,
    subject: Seq<u8>,
    pub_key_hash: Seq<u8>,
)
    ensures
        ({
            let is_key = key2(KeyPrefix::IssuerSerial, issuer, serial);
            let spk_key = key2(KeyPrefix::SubjectPubKey, subject, pub_key_hash);
            let r = revocation_state(m, issuer, serial, subject, pub_key_hash);
            &&& (m.contains_key(is_key) && m[is_key] == KvVal::I64(STATE_ENFORCE as i64)) ==> r
                == Ok::<i16, SecurityStateError>(STATE_ENFORCE)
            &&& ((!m.contains_key(is_key) || m[is_key] == KvVal::I64(STATE_UNSET as i64))
                && m.contains_key(spk_key) && m[spk_key] == KvVal::I64(STATE_ENFORCE as i64))
                ==> r == Ok::<i16, SecurityStateError>(STATE_ENFORCE)
            &&& r == Ok::<i16, SecurityStateError>(STATE_UNSET) ==> (read_state(m, is_key) matches Ok(
                x,
            ) && (x is None || x == Some(STATE_UNSET))) && (read_state(m, spk_key) matches Ok(y) && (
            y is None || y == Some(STATE_UNSET)))
        }),
{
}

/// The freshness gate: data last updated at `last` is fresh exactly until ten
/// days later; nine days on it is fresh, eleven days on it is not.
pub proof fn lemma_freshness_gate(m: KvMap, last: u64, now: u64)
    requires
        m.contains_key(last_update_key()),
        m[last_update_key()] == KvVal::U64(last),
        last <= MAX_SANE_UPDATE_TIME,
    ensures
        crlite_fresh(m, Some(now)) <==> now < last + CRLITE_FRESHNESS_SECS,
        now == last + 777600 ==> crlite_fresh(m, Some(now)),
        now == last + 950400 ==> !crlite_fresh(m, Some(now)),
        !crlite_fresh(m, None),
{
}

/// Precedence of the CRLite query: where any loaded filter reports a
/// revocation, the query reports it, whatever the others say and in whatever
/// order the filters stand; where every loaded filter reports one state, the
/// query reports that state.
pub proof fn lemma_query_precedence(
    filters: Seq<Seq<u8>>,
    issuer_hash: Seq<u8>,
    serial: Seq<u8>,
    logs: Seq<(Seq<u8>, u64)>,
    min_coverage: u64,
    s: i16,
)
    requires
        is_filter_state(s),
    ensures
        ({
            let states = filter_states(filters, issuer_hash, serial, logs, min_coverage);
            &&& (exists|i: int|
                0 <= i < filters.len() && filter_state(filters[i], issuer_hash, serial, logs, min_coverage)
                    == STATE_ENFORCE) ==> aggregate_spec(states) == STATE_ENFORCE
            &&& (filters.len() > 0 && forall|i: int|
                0 <= i < filters.len() ==> filter_state(
                    #[trigger] filters[i],
                    issuer_hash,
                    serial,
                    logs,
                    min_coverage,
                ) == s) ==> aggregate_spec(states) == s
        }),
{
    let states = filter_states(filters, issuer_hash, serial, logs, min_coverage);
    if exists|i: int|
        0 <= i < filters.len() && filter_state(filters[i], issuer_hash, serial, logs, min_coverage)
            == STATE_ENFORCE {
        let i = choose|i: int|
            0 <= i < filters.len() && filter_state(filters[i], issuer_hash, serial, logs, min_coverage)
                == STATE_ENFORCE;
        assert(states[i] == STATE_ENFORCE);
        assert(states.contains(STATE_ENFORCE));
    }
    if filters.len() > 0 && forall|i: int|
        0 <= i < filters.len() ==> filter_state(
            #[trigger] filters[i],
            issuer_hash,
            serial,
            logs,
            min_coverage,
        ) == s {
        assert forall|i: int| 0 <= i < states.len() implies states[i] == s by {
            assert(states[i] == filter_state(filters[i], issuer_hash, serial, logs, min_coverage));
        }
    }
    lemma_aggregation_precedence(states, s);
}

/// Whether `der` is among the DERs found for `hs`, given that the record under
/// one of the hashes holds it.
proof fn lemma_ders_found_has(m: KvMap, hs: Seq<Seq<u8>>, k: int, der: Seq<u8>)
    requires
        0 <= k < hs.len(),
        der_found(m, hs[k]) == seq![der],
    ensures
        ders_found(m, hs).contains(der),
    decreases hs.len(),
{
    if k == 0 {
        assert((der_found(m, hs[0]) + ders_found(m, hs.drop_first()))[0] == der);
    } else {
        lemma_ders_found_has(m, hs.drop_first(), k - 1, der);
        let rest = ders_found(m, hs.drop_first());
        let j = choose|j: int| 0 <= j < rest.len() && rest[j] == der;
        assert((der_found(m, hs[0]) + rest)[der_found(m, hs[0]).len() + j] == der);
    }
}

/// What adding one certificate does: its record is stored under the hash of
/// its DER, and its subject's list becomes that list with the hash added.
proof fn lemma_add_one_cert(
    m: KvMap,
    der_b64: Seq<u8>,
    subject_b64: Seq<u8>,
    trust: i16,
    der: Seq<u8>,
    subject: Seq<u8>,
)
    requires
        base64_decoded(der_b64) == Some(der),
        base64_decoded(subject_b64) == Some(subject),
        der.len() <= MAX_FIELD_LEN,
        subject.len() <= MAX_FIELD_LEN,
        sha256_of(der).len() == 32,
        list_well_formed(subject_list(m, subject)),
    ensures
        add_certs_result(m, seq![(der_b64, subject_b64, trust)]) matches Ok(m2) && {
            let h = sha256_of(der);
            &&& blob_at(m2, key1(KeyPrefix::Cert, h)) == Some(encode_cert(der, subject, trust))
            &&& subject_list(m2, subject) == list_add(subject_list(m, subject), h)
            &&& forall|k: Seq<u8>|
                k != key1(KeyPrefix::Cert, h) && k != key1(KeyPrefix::Subject, subject) && k
                    != data_type_key(DATA_TYPE_CERTIFICATE) ==> #[trigger] blob_at(m2, k) == blob_at(
                    m,
                    k,
                )
        },
{
    let h = sha256_of(der);
    let c = (der_b64, subject_b64, trust);
    let certs = seq![c];
    let dt = data_type_key(DATA_TYPE_CERTIFICATE);
    let ck = key1(KeyPrefix::Cert, h);
    let sk = key1(KeyPrefix::Subject, subject);
    crate::keys::lemma_prefixes_disjoint(KeyPrefix::DataType, KeyPrefix::Subject, seq![DATA_TYPE_CERTIFICATE], subject);
    crate::keys::lemma_prefixes_disjoint(KeyPrefix::Cert, KeyPrefix::Subject, h, subject);
    let m_dt = m.insert(dt, KvVal::Bool(true));
    let m1 = m_dt.insert(ck, KvVal::Blob(encode_cert(der, subject, trust)));
    assert(subject_list(m1, subject) == subject_list(m, subject));
    let old = subject_list(m, subject);
    crate::codec::lemma_hash_list_laws(old, h);
    assert(certs[0] == c);
    assert(certs.drop_first() =~= Seq::<CertInput>::empty());
    let new = list_add(old, h);
    if new.len() != old.len() {
        let m2 = m1.insert(sk, KvVal::Blob(new));
        assert(add_cert_step(m_dt, c) == Ok::<KvMap, SecurityStateError>(m2));
        assert(add_certs_from(m2, certs.drop_first()) == Ok::<KvMap, SecurityStateError>(m2));
        assert(add_certs_result(m, certs) == Ok::<KvMap, SecurityStateError>(m2));
        assert(subject_list(m2, subject) == new);
        assert(blob_at(m2, ck) == Some(encode_cert(der, subject, trust)));
    } else {
        assert(new == old);
        assert(add_cert_step(m_dt, c) == Ok::<KvMap, SecurityStateError>(m1));
        assert(add_certs_from(m1, certs.drop_first()) == Ok::<KvMap, SecurityStateError>(m1));
        assert(add_certs_result(m, certs) == Ok::<KvMap, SecurityStateError>(m1));
        assert(blob_at(m1, ck) == Some(encode_cert(der, subject, trust)));
    }
}

/// A certificate just added is found by its subject: for a store whose list
/// for the subject is well formed, adding `(der, subject, trust)` and then
/// looking up the subject returns a list that holds `der`.
pub proof fn lemma_added_cert_is_found(
    m: KvMap,
    der_b64: Seq<u8>,
    subject_b64: Seq<u8>,
    trust: i16,
    der: Seq<u8>,
    subject: Seq<u8>,
)
    requires
        base64_decoded(der_b64) == Some(der),
        base64_decoded(subject_b64) == Some(subject),
        der.len() <= MAX_FIELD_LEN,
        subject.len() <= MAX_FIELD_LEN,
        sha256_of(der).len() == 32,
        list_well_formed(subject_list(m, subject)),
    ensures
        add_certs_result(m, seq![(der_b64, subject_b64, trust)]) matches Ok(m2) && (certs_by_subject(
            m2,
            subject,
        ) matches Ok(ders) && ders.contains(der)),
{
    lemma_add_one_cert(m, der_b64, subject_b64, trust, der, subject);
    let h = sha256_of(der);
    let m2 = add_certs_result(m, seq![(der_b64, subject_b64, trust)])->Ok_0;
    let l = subject_list(m2, subject);
    crate::codec::lemma_add_holds(subject_list(m, subject), h);
    crate::codec::lemma_cert_round_trip(der, subject, trust);
    let k = choose|k: int| 0 <= k < l.len() / 32 && #[trigger] crate::codec::hash_at(l, k) == h;
    assert(hashes_of(l)[k] == h);
    assert(der_found(m2, h) == seq![der]);
    lemma_ders_found_has(m2, hashes_of(l), k, der);
}

/// No DER found for hashes that all differ from `h` hashes to `h`, in a
/// consistent store.
proof fn lemma_ders_found_avoid(m: KvMap, hs: Seq<Seq<u8>>, der: Seq<u8>)
    requires
        records_consistent(m),
        forall|k: int| 0 <= k < hs.len() ==> #[trigger] hs[k] != sha256_of(der),
    ensures
        !ders_found(m, hs).contains(der),
    decreases hs.len(),
{
    if hs.len() > 0 {
        let first = der_found(m, hs[0]);
        assert forall|k: int| 0 <= k < hs.drop_first().len() implies #[trigger] hs.drop_first()[k]
            != sha256_of(der) by {
            assert(hs.drop_first()[k] == hs[k + 1]);
        }
        lemma_ders_found_avoid(m, hs.drop_first(), der);
        let rest = ders_found(m, hs.drop_first());
        assert(hs[0] != sha256_of(der));
        assert(!first.contains(der));
        if (first + rest).contains(der) {
            let j = choose|j: int| 0 <= j < (first + rest).len() && (first + rest)[j] == der;
            if j < first.len() {
                assert(first[j] == der);
            } else {
                assert(rest[j - first.len()] == der);
            }
        }
    }
}

/// Delete consistency: a certificate added and then removed by the base64 of
/// its hash is gone. No record is stored under its hash, its subject's list,
/// still well formed, no longer holds the hash, and, in a store whose records
/// sit under the hashes of their own DER (a property that adding and removing
/// certificates keep), looking up the subject no longer returns its DER.
pub proof fn lemma_removed_cert_is_gone(
    m: KvMap,
    der_b64: Seq<u8>,
    subject_b64: Seq<u8>,
    trust: i16,
    der: Seq<u8>,
    subject: Seq<u8>,
    hash_b64: Seq<u8>,
)
    requires
        base64_decoded(der_b64) == Some(der),
        base64_decoded(subject_b64) == Some(subject),
        base64_decoded(hash_b64) == Some(sha256_of(der)),
        der.len() <= MAX_FIELD_LEN,
        subject.len() <= MAX_FIELD_LEN,
        sha256_of(der).len() == 32,
        list_well_formed(subject_list(m, subject)),
    ensures
        add_certs_result(m, seq![(der_b64, subject_b64, trust)]) matches Ok(m2) && (remove_certs_from(
            m2,
            m2,
            seq![hash_b64],
        ) matches Ok(m3) && {
            &&& !has_cert(m3, sha256_of(der))
            &&& list_well_formed(subject_list(m3, subject))
            &&& !crate::codec::list_contains(subject_list(m3, subject), sha256_of(der))
            &&& records_consistent(m) ==> (certs_by_subject(m3, subject) matches Ok(ders)
                && !ders.contains(der))
        }),
{
    lemma_add_one_cert(m, der_b64, subject_b64, trust, der, subject);
    let h = sha256_of(der);
    let m2 = add_certs_result(m, seq![(der_b64, subject_b64, trust)])->Ok_0;
    let ck = key1(KeyPrefix::Cert, h);
    let sk = key1(KeyPrefix::Subject, subject);
    crate::keys::lemma_prefixes_disjoint(KeyPrefix::Cert, KeyPrefix::Subject, h, subject);
    crate::codec::lemma_add_holds(subject_list(m, subject), h);
    crate::codec::lemma_cert_round_trip(der, subject, trust);
    let l = subject_list(m2, subject);
    crate::codec::lemma_remove_excludes(l, h);
    let nl = list_remove(l, h);
    let m3 = m2.insert(sk, KvVal::Blob(nl)).remove(ck);
    assert(remove_cert_step(m2, m2, hash_b64) == Ok::<KvMap, SecurityStateError>(m3));
    let hs = seq![hash_b64];
    assert(hs[0] == hash_b64);
    assert(hs.drop_first() =~= Seq::<Seq<u8>>::empty());
    assert(remove_certs_from(m2, m3, hs.drop_first()) == Ok::<KvMap, SecurityStateError>(m3));
    assert(remove_certs_from(m2, m2, hs) == Ok::<KvMap, SecurityStateError>(m3));
    assert(subject_list(m3, subject) == nl);
    if records_consistent(m) {
        let dt = data_type_key(DATA_TYPE_CERTIFICATE);
        assert forall|k: Seq<u8>| k != ck && k != sk && k != dt implies #[trigger] blob_at(m3, k)
            == blob_at(m, k) by {
            assert(blob_at(m2, k) == blob_at(m, k));
        }
        lemma_consistent_after_removal(m, m3, h, subject);
        assert forall|k: int| 0 <= k < hashes_of(nl).len() implies #[trigger] hashes_of(nl)[k]
            != h by {
            assert(hashes_of(nl)[k] == crate::codec::hash_at(nl, k));
        }
        lemma_ders_found_avoid(m3, hashes_of(nl), der);
    }
}

/// A store that differs from a consistent one only by losing the record
/// under `h` and by its subject list and certificate flag is consistent.
proof fn lemma_consistent_after_removal(m: KvMap, m3: KvMap, h: Seq<u8>, subject: Seq<u8>)
    requires
        records_consistent(m),
        !has_cert(m3, h),
        forall|k: Seq<u8>|
            k != key1(KeyPrefix::Cert, h) && k != key1(KeyPrefix::Subject, subject) && k
                != data_type_key(DATA_TYPE_CERTIFICATE) ==> #[trigger] blob_at(m3, k) == blob_at(m, k),
    ensures
        records_consistent(m3),
{
    assert forall|g: Seq<u8>| #[trigger] blob_at(m3, key1(KeyPrefix::Cert, g)) is Some implies match decode_cert(
        blob_at(m3, key1(KeyPrefix::Cert, g))->Some_0,
    ) {
        Some(c) => sha256_of(c.0) == g,
        None => true,
    } by {
        let gk = key1(KeyPrefix::Cert, g);
        crate::keys::lemma_prefixes_disjoint(KeyPrefix::Cert, KeyPrefix::Subject, g, subject);
        crate::keys::lemma_prefixes_disjoint(
            KeyPrefix::Cert,
            KeyPrefix::DataType,
            g,
            seq![DATA_TYPE_CERTIFICATE],
        );
        if g != h {
            assert(blob_at(m3, gk) == blob_at(m, gk));
        }
    }
}


/// Keys on one prefix that coincide have the same part.
proof fn lemma_key1_injective(p: KeyPrefix, a: Seq<u8>, b: Seq<u8>)
    requires
        key1(p, a) == key1(p, b),
    ensures
        a == b,
{
    let n = crate::keys::prefix_bytes(p).len() as int;
    assert(key1(p, a).subrange(n, key1(p, a).len() as int) =~= a);
    assert(key1(p, b).subrange(n, key1(p, b).len() as int) =~= b);
}

/// Adding one certificate keeps every record under the hash of its own DER.
proof fn lemma_add_step_consistent(m: KvMap, c: CertInput)
    requires
        records_consistent(m),
    ensures
        add_cert_step(m, c) matches Ok(m2) ==> records_consistent(m2),
{
    if let (Some(der), Some(subject)) = (base64_decoded(c.0), base64_decoded(c.1)) {
        if der.len() <= MAX_FIELD_LEN && subject.len() <= MAX_FIELD_LEN {
            let h = sha256_of(der);
            let ck = key1(KeyPrefix::Cert, h);
            let sk = key1(KeyPrefix::Subject, subject);
            crate::codec::lemma_cert_round_trip(der, subject, c.2);
            if let Ok(m2) = add_cert_step(m, c) {
                assert forall|g: Seq<u8>| #[trigger] blob_at(m2, key1(KeyPrefix::Cert, g)) is Some implies match decode_cert(
                    blob_at(m2, key1(KeyPrefix::Cert, g))->Some_0,
                ) {
                    Some(d) => sha256_of(d.0) == g,
                    None => true,
                } by {
                    let gk = key1(KeyPrefix::Cert, g);
                    crate::keys::lemma_prefixes_disjoint(KeyPrefix::Cert, KeyPrefix::Subject, g, subject);
                    if g == h {
                        assert(blob_at(m2, gk) == Some(encode_cert(der, subject, c.2)));
                    } else {
                        if gk == ck {
                            lemma_key1_injective(KeyPrefix::Cert, g, h);
                        }
                        assert(blob_at(m2, gk) == blob_at(m, gk));
                    }
                }
            }
        }
    }
}

/// Adding certificates keeps every record under the hash of its own DER.
proof fn lemma_add_certs_from_consistent(m: KvMap, certs: Seq<CertInput>)
    requires
        records_consistent(m),
    ensures
        add_certs_from(m, certs) matches Ok(m2) ==> records_consistent(m2),
    decreases certs.len(),
{
    if certs.len() > 0 {
        lemma_add_step_consistent(m, certs[0]);
        if let Ok(next) = add_cert_step(m, certs[0]) {
            lemma_add_certs_from_consistent(next, certs.drop_first());
        }
    }
}

/// A store whose certificate records all sit under the hashes of their own
/// DER keeps that property when a batch of certificates is added.
pub proof fn lemma_add_certs_consistent(m: KvMap, certs: Seq<CertInput>)
    requires
        records_consistent(m),
    ensures
        add_certs_result(m, certs) matches Ok(m2) ==> records_consistent(m2),
{
    let dt = data_type_key(DATA_TYPE_CERTIFICATE);
    let m1 = m.insert(dt, KvVal::Bool(true));
    assert forall|g: Seq<u8>| #[trigger] blob_at(m1, key1(KeyPrefix::Cert, g)) is Some implies match decode_cert(
        blob_at(m1, key1(KeyPrefix::Cert, g))->Some_0,
    ) {
        Some(d) => sha256_of(d.0) == g,
        None => true,
    } by {
        crate::keys::lemma_prefixes_disjoint(
            KeyPrefix::Cert,
            KeyPrefix::DataType,
            g,
            seq![DATA_TYPE_CERTIFICATE],
        );
        assert(blob_at(m1, key1(KeyPrefix::Cert, g)) == blob_at(m, key1(KeyPrefix::Cert, g)));
    }
    lemma_add_certs_from_consistent(m1, certs);
}

/// Removing one certificate keeps every record under the hash of its own DER.
proof fn lemma_remove_step_consistent(m0: KvMap, m: KvMap, hash_b64: Seq<u8>)
    requires
        records_consistent(m),
    ensures
        remove_cert_step(m0, m, hash_b64) matches Ok(m2) ==> records_consistent(m2),
{
    if let Some(h) = base64_decoded(hash_b64) {
        let ck = key1(KeyPrefix::Cert, h);
        if let Ok(m2) = remove_cert_step(m0, m, hash_b64) {
            assert forall|g: Seq<u8>| #[trigger] blob_at(m2, key1(KeyPrefix::Cert, g)) is Some implies match decode_cert(
                blob_at(m2, key1(KeyPrefix::Cert, g))->Some_0,
            ) {
                Some(d) => sha256_of(d.0) == g,
                None => true,
            } by {
                let gk = key1(KeyPrefix::Cert, g);
                if let Some(cb) = blob_at(m0, ck) {
                    if let Some(d) = decode_cert(cb) {
                        crate::keys::lemma_prefixes_disjoint(KeyPrefix::Cert, KeyPrefix::Subject, g, d.1);
                    }
                }
                if gk != ck {
                    assert(blob_at(m2, gk) == blob_at(m, gk));
                }
            }
        }
    }
}

/// A store whose certificate records all sit under the hashes of their own
/// DER keeps that property when certificates are removed.
pub proof fn lemma_remove_certs_consistent(m0: KvMap, m: KvMap, hashes: Seq<Seq<u8>>)
    requires
        records_consistent(m),
    ensures
        remove_certs_from(m0, m, hashes) matches Ok(m2) ==> records_consistent(m2),
    decreases hashes.len(),
{
    if hashes.len() > 0 {
        lemma_remove_step_consistent(m0, m, hashes[0]);
        if let Ok(next) = remove_cert_step(m0, m, hashes[0]) {
            lemma_remove_certs_consistent(m0, next, hashes.drop_first());
        }
    }
}

} // verus!
