use cert_storage::keys::{make_key1, make_key2, make_last_update_key, KeyPrefix};
use cert_storage::kv::{compare_bytes, KvOp, KvStore, KvValue};

#[test]
fn keys_concatenate_prefix_and_parts() {
    assert_eq!(make_key2(KeyPrefix::IssuerSerial, b"I", b"S"), b"isIS".to_vec());
    assert_eq!(make_key2(KeyPrefix::SubjectPubKey, b"ab", b"c"), b"spkabc".to_vec());
    assert_eq!(make_key1(KeyPrefix::Subject, b"x"), b"subjectx".to_vec());
    assert_eq!(make_key1(KeyPrefix::Cert, &[1, 2]), [b"cert".to_vec(), vec![1, 2]].concat());
    assert_eq!(make_key1(KeyPrefix::DataType, &[2]), [b"datatype".to_vec(), vec![2]].concat());
    assert_eq!(make_last_update_key(), b"last_crlite_update".to_vec());
}

#[test]
fn store_put_get_delete() {
    let mut store = KvStore::new();
    assert_eq!(store.get(b"k"), None);
    store.put(b"k", KvValue::I64(5));
    store.put(b"j", KvValue::Blob(vec![1, 2]));
    assert_eq!(store.get(b"k"), Some(KvValue::I64(5)));
    store.put(b"k", KvValue::Bool(true));
    assert_eq!(store.get(b"k"), Some(KvValue::Bool(true)));
    store.delete(b"k");
    assert_eq!(store.get(b"k"), None);
    assert_eq!(store.get(b"j"), Some(KvValue::Blob(vec![1, 2])));
    store.delete(b"absent");
    let ops = store.take_pending();
    assert_eq!(
        ops,
        vec![
            KvOp::Put(b"k".to_vec(), KvValue::I64(5)),
            KvOp::Put(b"j".to_vec(), KvValue::Blob(vec![1, 2])),
            KvOp::Put(b"k".to_vec(), KvValue::Bool(true)),
            KvOp::Delete(b"k".to_vec()),
            KvOp::Delete(b"absent".to_vec()),
        ]
    );
    assert!(store.take_pending().is_empty());
    assert_eq!(store.get(b"j"), Some(KvValue::Blob(vec![1, 2])));
}

#[test]
fn store_from_records_keeps_last_value() {
    let records = vec![
        (b"a".to_vec(), KvValue::U64(1)),
        (b"b".to_vec(), KvValue::U64(2)),
        (b"a".to_vec(), KvValue::U64(3)),
    ];
    let mut store = KvStore::from_records(&records);
    assert_eq!(store.get(b"a"), Some(KvValue::U64(3)));
    assert_eq!(store.get(b"b"), Some(KvValue::U64(2)));
    assert!(store.take_pending().is_empty());
}

#[test]
fn store_snapshot_is_independent() {
    let mut store = KvStore::new();
    store.put(b"a", KvValue::I64(1));
    let mut copy = store.snapshot();
    copy.put(b"a", KvValue::I64(2));
    assert_eq!(store.get(b"a"), Some(KvValue::I64(1)));
    assert_eq!(copy.get(b"a"), Some(KvValue::I64(2)));
    assert_eq!(copy.take_pending().len(), 2);
}

#[test]
fn store_many_keys_in_any_order() {
    let mut store = KvStore::new();
    let keys: Vec<Vec<u8>> = (0..200u32)
        .map(|i| {
            let n = (i * 7919) % 200;
            let mut k = vec![(n % 7) as u8];
            k.extend(std::iter::repeat((n / 7) as u8).take((n % 3) as usize));
            k.push(n as u8);
            k
        })
        .collect();
    for (i, k) in keys.iter().enumerate() {
        store.put(k, KvValue::U64(i as u64));
    }
    for (i, k) in keys.iter().enumerate() {
        assert_eq!(store.get(k), Some(KvValue::U64(i as u64)));
    }
    for k in keys.iter().step_by(2) {
        store.delete(k);
    }
    for (i, k) in keys.iter().enumerate() {
        let expected = if i % 2 == 0 { None } else { Some(KvValue::U64(i as u64)) };
        assert_eq!(store.get(k), expected);
    }
    assert_eq!(store.get(&[]), None);
    store.put(&[], KvValue::Bool(false));
    assert_eq!(store.get(&[]), Some(KvValue::Bool(false)));
}

#[test]
fn compare_bytes_is_lexicographic() {
    assert_eq!(compare_bytes(b"abc", b"abc"), 0);
    assert!(compare_bytes(b"ab", b"abc") < 0);
    assert!(compare_bytes(b"abd", b"abc") > 0);
    assert!(compare_bytes(b"", b"a") < 0);
    assert!(compare_bytes(&[0xff], &[0x00, 0x01]) > 0);
}
