use cert_storage::codec::{Cert, CertHashList};
use cert_storage::SecurityStateError;

fn hash(b: u8) -> Vec<u8> {
    vec![b; 32]
}

#[test]
fn cert_encoding_is_exact() {
    let cert = Cert { der: vec![0x30, 0x00], subject: vec![0x31, 0x00], trust: -1 };
    let bytes = cert.to_bytes().unwrap();
    assert_eq!(bytes, vec![1, 0, 2, 0x30, 0x00, 0, 2, 0x31, 0x00, 0xff, 0xff]);
}

#[test]
fn cert_round_trip() {
    for trust in [i16::MIN, -2, 0, 1, 300, i16::MAX] {
        let der: Vec<u8> = (0..300u32).map(|i| (i % 251) as u8).collect();
        let subject = vec![0x31, 0x05, 0x07];
        let cert = Cert::new(&der, &subject, trust).unwrap();
        let bytes = cert.to_bytes().unwrap();
        let back = Cert::from_bytes(&bytes).unwrap();
        assert_eq!(back.der, der);
        assert_eq!(back.subject, subject);
        assert_eq!(back.trust, trust);
    }
}

#[test]
fn cert_round_trip_at_largest_size() {
    let der = vec![7u8; 65535];
    let subject = vec![9u8; 65535];
    let bytes = Cert::new(&der, &subject, 0).unwrap().to_bytes().unwrap();
    assert_eq!(bytes.len(), 7 + 65535 * 2);
    let back = Cert::from_bytes(&bytes).unwrap();
    assert_eq!(back.der, der);
    assert_eq!(back.subject, subject);
}

#[test]
fn cert_too_long() {
    let long = vec![0u8; 65536];
    assert_eq!(Cert::new(&long, &[1], 0).unwrap_err(), SecurityStateError::TooLong);
    assert_eq!(Cert::new(&[1], &long, 0).unwrap_err(), SecurityStateError::TooLong);
    let cert = Cert { der: long, subject: vec![], trust: 0 };
    assert_eq!(cert.to_bytes().unwrap_err(), SecurityStateError::TooLong);
}

#[test]
fn cert_decoding_rejects_malformed_records() {
    let good = vec![1, 0, 2, 0x30, 0x00, 0, 2, 0x31, 0x00, 0x00, 0x01];
    assert_eq!(Cert::from_bytes(&good).unwrap().trust, 1);
    let cases: Vec<Vec<u8>> = vec![
        vec![],
        vec![2, 0, 0, 0, 0, 0, 0],
        vec![1, 0],
        vec![1, 0, 5, 0x30],
        vec![1, 0, 2, 0x30, 0x00, 0],
        vec![1, 0, 2, 0x30, 0x00, 0, 2, 0x31],
        vec![1, 0, 2, 0x30, 0x00, 0, 2, 0x31, 0x00, 0x00],
        [good.clone(), vec![0]].concat(),
    ];
    for case in cases {
        assert_eq!(Cert::from_bytes(&case).unwrap_err(), SecurityStateError::MalformedRecord);
    }
}

#[test]
fn hash_list_add_and_remove() {
    let a = hash(1);
    let b = hash(2);
    let l = CertHashList::add(&[], &a).unwrap();
    assert_eq!(l, a);
    let l2 = CertHashList::add(&l, &b).unwrap();
    assert_eq!(l2, [a.clone(), b.clone()].concat());
    assert_eq!(CertHashList::add(&l2, &a).unwrap(), l2);
    assert_eq!(CertHashList::remove(&l2, &a).unwrap(), b);
    assert_eq!(CertHashList::remove(&l2, &hash(3)).unwrap(), l2);
}

#[test]
fn hash_list_remove_drops_every_occurrence() {
    let a = hash(1);
    let b = hash(2);
    let l = [a.clone(), b.clone(), a.clone(), b.clone()].concat();
    assert_eq!(CertHashList::remove(&l, &a).unwrap(), [b.clone(), b.clone()].concat());
}

#[test]
fn hash_list_set_laws_on_examples() {
    let l = [hash(5), hash(6)].concat();
    let h = hash(7);
    let added = CertHashList::add(&l, &h).unwrap();
    assert_eq!(CertHashList::remove(&added, &h).unwrap(), l);
    assert_eq!(CertHashList::add(&added, &h).unwrap(), added);
    assert_eq!(added.len(), l.len() + 32);
    let again = CertHashList::add(&l, &hash(5)).unwrap();
    assert_eq!(again.len(), l.len());
}

#[test]
fn hash_list_rejects_bad_lengths() {
    assert_eq!(CertHashList::new(&[0u8; 33]).err(), Some(SecurityStateError::MalformedList));
    assert_eq!(CertHashList::add(&[0u8; 31], &hash(1)).unwrap_err(), SecurityStateError::MalformedList);
    assert_eq!(CertHashList::add(&[], &[1, 2]).unwrap_err(), SecurityStateError::MalformedList);
    assert_eq!(CertHashList::remove(&[0u8; 40], &hash(1)).unwrap_err(), SecurityStateError::MalformedList);
    assert_eq!(CertHashList::remove(&[], &[1]).unwrap_err(), SecurityStateError::MalformedList);
}

#[test]
fn hash_list_splits_into_digests() {
    let l = [hash(1), hash(2), hash(3)].concat();
    let hashes = CertHashList::new(&l).unwrap().into_hashes();
    assert_eq!(hashes, vec![hash(1), hash(2), hash(3)]);
    assert!(CertHashList::new(&[]).unwrap().into_hashes().is_empty());
}
