use vstd::prelude::*;
use crate::codec::append_bytes;

verus! {

/// The prefixes that partition the key space.
#[derive(Clone, Copy, Debug, PartialEq, Eq, Structural)]
pub enum KeyPrefix {
    /// `is`: a revocation by issuer and serial number.
    IssuerSerial,
    /// `spk`: a revocation by subject and public key hash.
    SubjectPubKey,
    /// `subject`: the hash list of the certificates with a given subject.
    Subject,
    /// `cert`: a certificate record, by the hash of its DER encoding.
    Cert,
    /// `datatype`: whether data of a given type was ever stored.
    DataType,
}

/// The ASCII bytes of a prefix.
pub open spec fn prefix_bytes(p: KeyPrefix) -> Seq<u8> {
    match p {
        KeyPrefix::IssuerSerial => seq![105u8, 115u8],
        KeyPrefix::SubjectPubKey => seq![115u8, 112u8, 107u8],
        KeyPrefix::Subject => seq![115u8, 117u8, 98u8, 106u8, 101u8, 99u8, 116u8],
        KeyPrefix::Cert => seq![99u8, 101u8, 114u8, 116u8],
        KeyPrefix::DataType => seq![100u8, 97u8, 116u8, 97u8, 116u8, 121u8, 112u8, 101u8],
    }
}

/// The key under which the time of the last CRLite update is kept:
/// the ASCII bytes of `last_crlite_update`.
pub open spec fn last_update_key() -> Seq<u8> {
    seq![
        108u8, 97u8, 115u8, 116u8, 95u8, 99u8, 114u8, 108u8, 105u8, 116u8, 101u8, 95u8,
        117u8, 112u8, 100u8, 97u8, 116u8, 101u8,
    ]
}

/// `prefix ‖ a ‖ b`.
pub open spec fn key2(p: KeyPrefix, a: Seq<u8>, b: Seq<u8>) -> Seq<u8> {
    prefix_bytes(p) + a + b
}

/// `prefix ‖ a`.
pub open spec fn key1(p: KeyPrefix, a: Seq<u8>) -> Seq<u8> {
    prefix_bytes(p) + a
}

/// The key of the flag that records data of type `t`.
pub open spec fn data_type_key(t: u8) -> Seq<u8> {
    key1(KeyPrefix::DataType, seq![t])
}

impl KeyPrefix {
    /// The ASCII bytes of this prefix.
    pub fn to_bytes(&self) -> (r: Vec<u8>)
        ensures
            r@ == prefix_bytes(*self),
    {
        let r: Vec<u8> = match self {
            KeyPrefix::IssuerSerial => vec![105u8, 115u8],
            KeyPrefix::SubjectPubKey => vec![115u8, 112u8, 107u8],
            KeyPrefix::Subject => vec![115u8, 117u8, 98u8, 106u8, 101u8, 99u8, 116u8],
            KeyPrefix::Cert => vec![99u8, 101u8, 114u8, 116u8],
            KeyPrefix::DataType => vec![100u8, 97u8, 116u8, 97u8, 116u8, 121u8, 112u8, 101u8],
        };
        assert(r@ =~= prefix_bytes(*self));
        r
    }
}

/// The key of the last CRLite update time.
pub fn make_last_update_key() -> (r: Vec<u8>)
    ensures
        r@ == last_update_key(),
{
    let r: Vec<u8> = vec![
        108u8, 97u8, 115u8, 116u8, 95u8, 99u8, 114u8, 108u8, 105u8, 116u8, 101u8, 95u8,
        117u8, 112u8, 100u8, 97u8, 116u8, 101u8,
    ];
    assert(r@ =~= last_update_key());
    r
}

/// `prefix ‖ a`.
pub fn make_key1(p: KeyPrefix, a: &[u8]) -> (r: Vec<u8>)
    ensures
        r@ == key1(p, a@),
{
    let mut key = p.to_bytes();
    append_bytes(&mut key, a);
    key
}

/// `prefix ‖ a ‖ b`.
pub fn make_key2(p: KeyPrefix, a: &[u8], b: &[u8]) -> (r: Vec<u8>)
    ensures
        r@ == key2(p, a@, b@),
{
    let mut key = p.to_bytes();
    append_bytes(&mut key, a);
    append_bytes(&mut key, b);
    key
}

/// The key of the flag that records data of type `t`.
pub fn make_data_type_key(t: u8) -> (r: Vec<u8>)
    ensures
        r@ == data_type_key(t),
{
    let mut key = KeyPrefix::DataType.to_bytes();
    key.push(t);
    key
}

/// Keys built on different prefixes, or on the fixed update-time key, never
/// coincide: the prefixes differ within their first two bytes.
pub proof fn lemma_prefixes_disjoint(p: KeyPrefix, q: KeyPrefix, a: Seq<u8>, b: Seq<u8>)
    requires
        p != q,
    ensures
        prefix_bytes(p) + a != prefix_bytes(q) + b,
        prefix_bytes(p) + a != last_update_key(),
{
    let x = prefix_bytes(p) + a;
    let y = prefix_bytes(q) + b;
    assert(x[0] == prefix_bytes(p)[0] && x[1] == prefix_bytes(p)[1]);
    assert(y[0] == prefix_bytes(q)[0] && y[1] == prefix_bytes(q)[1]);
    assert(last_update_key()[0] == 108u8);
}

} // verus!
