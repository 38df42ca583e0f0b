use vstd::prelude::*;
use crate::error::SecurityStateError;

verus! {

/// The only serialization version of a certificate record.
pub const CERT_SERIALIZATION_VERSION_1: u8 = 1;

/// Length of a SHA-256 digest, the unit of a hash list.
pub const HASH_LEN: usize = 32;

/// Largest length a 16-bit length prefix can describe.
pub const MAX_FIELD_LEN: usize = 65535;

/// Two bytes, most significant first, of a value in `0..65536`.
pub open spec fn be_u16(n: int) -> Seq<u8> {
    seq![(n / 256) as u8, (n % 256) as u8]
}

/// The two bytes at `at` of `b`, read most significant first.
pub open spec fn read_be_u16(b: Seq<u8>, at: int) -> int {
    b[at] as int * 256 + b[at + 1] as int
}

/// The unsigned 16-bit pattern of a signed 16-bit value.
pub open spec fn i16_bits(v: i16) -> int {
    if v < 0 {
        v + 65536
    } else {
        v as int
    }
}

/// The signed 16-bit value of an unsigned 16-bit pattern.
pub open spec fn i16_from_bits(n: int) -> i16 {
    if n >= 32768 {
        (n - 65536) as i16
    } else {
        n as i16
    }
}

/// Version 1 encoding of a certificate record:
/// `1 | der_len | der | subject_len | subject | trust`, big-endian.
pub open spec fn encode_cert(der: Seq<u8>, subject: Seq<u8>, trust: i16) -> Seq<u8> {
    seq![CERT_SERIALIZATION_VERSION_1] + be_u16(der.len() as int) + der + be_u16(
        subject.len() as int,
    ) + subject + be_u16(i16_bits(trust))
}

/// The `(der, subject, trust)` that `b` encodes, or `None` when `b` lacks the
/// version, has another version, is truncated anywhere, or has trailing bytes.
pub open spec fn decode_cert(b: Seq<u8>) -> Option<(Seq<u8>, Seq<u8>, i16)> {
    if b.len() < 3 || b[0] != CERT_SERIALIZATION_VERSION_1 {
        None
    } else {
        let dl = read_be_u16(b, 1);
        if b.len() < 5 + dl {
            None
        } else {
            let sl = read_be_u16(b, 3 + dl);
            if b.len() != 7 + dl + sl {
                None
            } else {
                Some(
                    (
                        b.subrange(3, 3 + dl),
                        b.subrange(5 + dl, 5 + dl + sl),
                        i16_from_bits(read_be_u16(b, 5 + dl + sl)),
                    ),
                )
            }
        }
    }
}

/// A certificate record: its DER encoding, its DER-encoded subject and its trust.
#[derive(Clone, Debug)]
pub struct Cert {
    pub der: Vec<u8>,
    pub subject: Vec<u8>,
    pub trust: i16,
}

/// Copies `b[start..end]` into a new vector.
pub fn copy_range(b: &[u8], start: usize, end: usize) -> (r: Vec<u8>)
    requires
        start <= end <= b@.len(),
    ensures
        r@ == b@.subrange(start as int, end as int),
{
    let mut r: Vec<u8> = Vec::with_capacity(end - start);
    let mut i: usize = start;
    while i < end
        invariant
            start <= i <= end <= b@.len(),
            r@ == b@.subrange(start as int, i as int),
        decreases end - i,
    {
        r.push(b[i]);
        i = i + 1;
        assert(r@ =~= b@.subrange(start as int, i as int));
    }
    r
}

/// Copies all of `b` into a new vector.
pub fn copy_bytes(b: &[u8]) -> (r: Vec<u8>)
    ensures
        r@ == b@,
{
    let r = copy_range(b, 0, b.len());
    assert(r@ =~= b@);
    r
}

/// Appends every byte of `src` to `dst`.
pub fn append_bytes(dst: &mut Vec<u8>, src: &[u8])
    ensures
        final(dst)@ == old(dst)@ + src@,
{
    let mut i: usize = 0;
    while i < src.len()
        invariant
            i <= src@.len(),
            dst@ == old(dst)@ + src@.subrange(0, i as int),
        decreases src@.len() - i,
    {
        dst.push(src[i]);
        i = i + 1;
        assert(dst@ =~= old(dst)@ + src@.subrange(0, i as int));
    }
    assert(src@.subrange(0, src@.len() as int) =~= src@);
}

/// Appends the two big-endian bytes of `n`.
fn push_be_u16(dst: &mut Vec<u8>, n: u32)
    requires
        n < 65536,
    ensures
        final(dst)@ == old(dst)@ + be_u16(n as int),
{
    dst.push((n / 256) as u8);
    dst.push((n % 256) as u8);
    assert(final(dst)@ =~= old(dst)@ + be_u16(n as int));
}

/// Reads the two big-endian bytes at `at`.
fn get_be_u16(b: &[u8], at: usize) -> (r: usize)
    requires
        at + 2 <= b@.len(),
    ensures
        r as int == read_be_u16(b@, at as int),
        r < 65536,
{
    (b[at] as usize) * 256 + (b[at + 1] as usize)
}

impl Cert {
    /// A record of the given parts; each of `der` and `subject` must fit a
    /// 16-bit length.
    pub fn new(der: &[u8], subject: &[u8], trust: i16) -> (r: Result<Cert, SecurityStateError>)
        ensures
            match r {
                Ok(c) => {
                    &&& der@.len() <= MAX_FIELD_LEN
                    &&& subject@.len() <= MAX_FIELD_LEN
                    &&& c.der@ == der@
                    &&& c.subject@ == subject@
                    &&& c.trust == trust
                },
                Err(e) => e == SecurityStateError::TooLong && (der@.len() > MAX_FIELD_LEN
                    || subject@.len() > MAX_FIELD_LEN),
            },
    {
        if der.len() > MAX_FIELD_LEN {
            return Err(SecurityStateError::TooLong);
        }
        if subject.len() > MAX_FIELD_LEN {
            return Err(SecurityStateError::TooLong);
        }
        Ok(Cert { der: copy_bytes(der), subject: copy_bytes(subject), trust })
    }

    /// Decodes a version 1 record.
    pub fn from_bytes(encoded: &[u8]) -> (r: Result<Cert, SecurityStateError>)
        ensures
            match r {
                Ok(c) => decode_cert(encoded@) == Some((c.der@, c.subject@, c.trust)),
                Err(e) => decode_cert(encoded@) is None && e == SecurityStateError::MalformedRecord,
            },
    {
        let n = encoded.len();
        if n < 3 || encoded[0] != CERT_SERIALIZATION_VERSION_1 {
            return Err(SecurityStateError::MalformedRecord);
        }
        let dl = get_be_u16(encoded, 1);
        if n < 5 + dl {
            return Err(SecurityStateError::MalformedRecord);
        }
        let sl = get_be_u16(encoded, 3 + dl);
        if n != 7 + dl + sl {
            return Err(SecurityStateError::MalformedRecord);
        }
        let der = copy_range(encoded, 3, 3 + dl);
        let subject = copy_range(encoded, 5 + dl, 5 + dl + sl);
        let bits = get_be_u16(encoded, 5 + dl + sl);
        let trust: i16 = if bits >= 32768 {
            (bits as i32 - 65536) as i16
        } else {
            bits as i16
        };
        Ok(Cert { der, subject, trust })
    }

    /// Encodes this record in version 1.
    pub fn to_bytes(&self) -> (r: Result<Vec<u8>, SecurityStateError>)
        ensures
            match r {
                Ok(b) => {
                    &&& self.der@.len() <= MAX_FIELD_LEN
                    &&& self.subject@.len() <= MAX_FIELD_LEN
                    &&& b@ == encode_cert(self.der@, self.subject@, self.trust)
                },
                Err(e) => e == SecurityStateError::TooLong && (self.der@.len() > MAX_FIELD_LEN
                    || self.subject@.len() > MAX_FIELD_LEN),
            },
    {
        if self.der.len() > MAX_FIELD_LEN || self.subject.len() > MAX_FIELD_LEN {
            return Err(SecurityStateError::TooLong);
        }
        let mut bytes: Vec<u8> = Vec::with_capacity(7 + self.der.len() + self.subject.len());
        bytes.push(CERT_SERIALIZATION_VERSION_1);
        push_be_u16(&mut bytes, self.der.len() as u32);
        append_bytes(&mut bytes, self.der.as_slice());
        push_be_u16(&mut bytes, self.subject.len() as u32);
        append_bytes(&mut bytes, self.subject.as_slice());
        let bits: u32 = if self.trust < 0 {
            (self.trust as i32 + 65536) as u32
        } else {
            self.trust as u32
        };
        push_be_u16(&mut bytes, bits);
        assert(bytes@ =~= encode_cert(self.der@, self.subject@, self.trust));
        Ok(bytes)
    }
}

/// Decoding an encoded record gives back its parts.
pub proof fn lemma_cert_round_trip(der: Seq<u8>, subject: Seq<u8>, trust: i16)
    requires
        der.len() <= MAX_FIELD_LEN,
        subject.len() <= MAX_FIELD_LEN,
    ensures
        decode_cert(encode_cert(der, subject, trust)) == Some((der, subject, trust)),
{
    let b = encode_cert(der, subject, trust);
    let dl = der.len() as int;
    let sl = subject.len() as int;
    assert(b.len() == 7 + dl + sl);
    assert(read_be_u16(b, 1) == dl);
    assert(read_be_u16(b, 3 + dl) == sl);
    assert(read_be_u16(b, 5 + dl + sl) == i16_bits(trust));
    assert(b.subrange(3, 3 + dl) =~= der);
    assert(b.subrange(5 + dl, 5 + dl + sl) =~= subject);
}

/// The `i`-th 32-byte digest of a hash list.
pub open spec fn hash_at(l: Seq<u8>, i: int) -> Seq<u8> {
    l.subrange(32 * i, 32 * i + 32)
}

/// A hash list is a whole number of 32-byte digests.
pub open spec fn list_well_formed(l: Seq<u8>) -> bool {
    l.len() % 32 == 0
}

/// The digests of a hash list, in order.
pub open spec fn hashes_of(l: Seq<u8>) -> Seq<Seq<u8>> {
    Seq::new((l.len() / 32) as nat, |i: int| hash_at(l, i))
}

/// `h` is one of the digests of `l`.
pub open spec fn list_contains(l: Seq<u8>, h: Seq<u8>) -> bool {
    exists|i: int| 0 <= i < l.len() / 32 && #[trigger] hash_at(l, i) == h
}

/// `l` with `h` appended, unless `h` is already there.
pub open spec fn list_add(l: Seq<u8>, h: Seq<u8>) -> Seq<u8> {
    if list_contains(l, h) {
        l
    } else {
        l + h
    }
}

/// `l` without any occurrence of `h`, the other digests kept in order.
pub open spec fn list_remove(l: Seq<u8>, h: Seq<u8>) -> Seq<u8>
    decreases l.len(),
{
    if l.len() < 32 {
        Seq::empty()
    } else {
        let n = l.len() as int;
        let rest = list_remove(l.subrange(0, n - 32), h);
        if l.subrange(n - 32, n) == h {
            rest
        } else {
            rest + l.subrange(n - 32, n)
        }
    }
}

/// A list of SHA-256 digests of DER-encoded certificates.
pub struct CertHashList {
    hashes: Vec<Vec<u8>>,
}

/// Whether the 32 bytes of `l` at `start` equal `h`.
fn digest_at_equals(l: &[u8], start: usize, h: &[u8]) -> (r: bool)
    requires
        h@.len() == 32,
        start + 32 <= l@.len(),
    ensures
        r == (l@.subrange(start as int, start + 32) == h@),
{
    let n = l.len();
    let mut j: usize = 0;
    while j < 32
        invariant
            n == l@.len(),
            j <= 32,
            h@.len() == 32,
            start + 32 <= l@.len(),
            forall|k: int| 0 <= k < j ==> l@[start + k] == h@[k],
        decreases 32 - j,
    {
        if l[start + j] != h[j] {
            assert(l@.subrange(start as int, start + 32)[j as int] != h@[j as int]);
            return false;
        }
        j = j + 1;
    }
    assert(l@.subrange(start as int, start + 32) =~= h@);
    true
}

impl CertHashList {
    pub closed spec fn view(&self) -> Seq<Seq<u8>> {
        self.hashes@.map_values(|h: Vec<u8>| h@)
    }

    /// Splits `hashes_bytes` into its digests.
    pub fn new(hashes_bytes: &[u8]) -> (r: Result<CertHashList, SecurityStateError>)
        ensures
            match r {
                Ok(l) => list_well_formed(hashes_bytes@) && l@ == hashes_of(hashes_bytes@),
                Err(e) => !list_well_formed(hashes_bytes@) && e == SecurityStateError::MalformedList,
            },
    {
        if hashes_bytes.len() % HASH_LEN != 0 {
            return Err(SecurityStateError::MalformedList);
        }
        let n = hashes_bytes.len();
        let count = n / HASH_LEN;
        let mut hashes: Vec<Vec<u8>> = Vec::with_capacity(count);
        let mut i: usize = 0;
        while i < count
            invariant
                n == hashes_bytes@.len(),
                count == hashes_bytes@.len() / 32,
                hashes_bytes@.len() % 32 == 0,
                i <= count,
                hashes@.len() == i,
                forall|k: int| 0 <= k < i ==> #[trigger] hashes@[k]@ == hash_at(hashes_bytes@, k),
            decreases count - i,
        {
            assert(32 * i + 32 <= hashes_bytes@.len());
            hashes.push(copy_range(hashes_bytes, i * 32, i * 32 + 32));
            i = i + 1;
        }
        let r = CertHashList { hashes };
        assert(r@ =~= hashes_of(hashes_bytes@));
        Ok(r)
    }

    /// The digests, in order.
    pub fn into_hashes(self) -> (r: Vec<Vec<u8>>)
        ensures
            r@.map_values(|h: Vec<u8>| h@) == self@,
    {
        self.hashes
    }

    /// `hashes_bytes` with `new_hash` appended unless already present.
    pub fn add(hashes_bytes: &[u8], new_hash: &[u8]) -> (r: Result<Vec<u8>, SecurityStateError>)
        ensures
            match r {
                Ok(l) => {
                    &&& list_well_formed(hashes_bytes@)
                    &&& new_hash@.len() == 32
                    &&& l@ == list_add(hashes_bytes@, new_hash@)
                },
                Err(e) => e == SecurityStateError::MalformedList && (!list_well_formed(
                    hashes_bytes@,
                ) || new_hash@.len() != 32),
            },
    {
        if hashes_bytes.len() % HASH_LEN != 0 {
            return Err(SecurityStateError::MalformedList);
        }
        if new_hash.len() != HASH_LEN {
            return Err(SecurityStateError::MalformedList);
        }
        let n = hashes_bytes.len();
        let count = n / HASH_LEN;
        let mut i: usize = 0;
        while i < count
            invariant
                n == hashes_bytes@.len(),
                count == hashes_bytes@.len() / 32,
                hashes_bytes@.len() % 32 == 0,
                new_hash@.len() == 32,
                i <= count,
                forall|k: int| 0 <= k < i ==> #[trigger] hash_at(hashes_bytes@, k) != new_hash@,
            decreases count - i,
        {
            assert(32 * i + 32 <= hashes_bytes@.len());
            if digest_at_equals(hashes_bytes, i * 32, new_hash) {
                assert(hash_at(hashes_bytes@, i as int) == new_hash@);
                return Ok(copy_bytes(hashes_bytes));
            }
            i = i + 1;
        }
        let mut combined = copy_bytes(hashes_bytes);
        append_bytes(&mut combined, new_hash);
        assert(hashes_bytes@.subrange(0, hashes_bytes@.len() as int) =~= hashes_bytes@);
        Ok(combined)
    }

    /// `hashes_bytes` without any occurrence of `cert_hash`.
    pub fn remove(hashes_bytes: &[u8], cert_hash: &[u8]) -> (r: Result<Vec<u8>, SecurityStateError>)
        ensures
            match r {
                Ok(l) => {
                    &&& list_well_formed(hashes_bytes@)
                    &&& cert_hash@.len() == 32
                    &&& l@ == list_remove(hashes_bytes@, cert_hash@)
                },
                Err(e) => e == SecurityStateError::MalformedList && (!list_well_formed(
                    hashes_bytes@,
                ) || cert_hash@.len() != 32),
            },
    {
        if hashes_bytes.len() % HASH_LEN != 0 {
            return Err(SecurityStateError::MalformedList);
        }
        if cert_hash.len() != HASH_LEN {
            return Err(SecurityStateError::MalformedList);
        }
        let n = hashes_bytes.len();
        let count = n / HASH_LEN;
        let mut result: Vec<u8> = Vec::with_capacity(hashes_bytes.len());
        let mut i: usize = 0;
        while i < count
            invariant
                n == hashes_bytes@.len(),
                count == hashes_bytes@.len() / 32,
                hashes_bytes@.len() % 32 == 0,
                cert_hash@.len() == 32,
                i <= count,
                result@ == list_remove(hashes_bytes@.subrange(0, 32 * i), cert_hash@),
            decreases count - i,
        {
            assert(32 * i + 32 <= hashes_bytes@.len());
            let ghost prefix = hashes_bytes@.subrange(0, 32 * (i + 1));
            assert(prefix.subrange(0, 32 * i) =~= hashes_bytes@.subrange(0, 32 * i));
            assert(prefix.subrange(32 * i, 32 * i + 32) =~= hash_at(hashes_bytes@, i as int));
            if !digest_at_equals(hashes_bytes, i * 32, cert_hash) {
                let chunk = copy_range(hashes_bytes, i * 32, i * 32 + 32);
                append_bytes(&mut result, chunk.as_slice());
            }
            i = i + 1;
        }
        assert(hashes_bytes@.subrange(0, 32 * count) =~= hashes_bytes@);
        Ok(result)
    }
}

/// Removing a digest that is not in a well-formed list leaves the list as it is.
pub proof fn lemma_remove_absent(l: Seq<u8>, h: Seq<u8>)
    requires
        list_well_formed(l),
        !list_contains(l, h),
    ensures
        list_remove(l, h) == l,
    decreases l.len(),
{
    if l.len() < 32 {
        assert(l.len() == 0);
        assert(l =~= Seq::<u8>::empty());
    } else {
        let n = l.len() as int;
        let init = l.subrange(0, n - 32);
        assert forall|i: int| 0 <= i < init.len() / 32 implies #[trigger] hash_at(init, i) != h by {
            assert(hash_at(init, i) =~= hash_at(l, i));
        }
        lemma_remove_absent(init, h);
        assert(l.subrange(n - 32, n) =~= hash_at(l, n / 32 - 1));
        assert(init + l.subrange(n - 32, n) =~= l);
    }
}

/// Removing `h` from `l ++ h`, where `h` is a digest absent from `l`, gives back `l`.
proof fn lemma_remove_appended(l: Seq<u8>, h: Seq<u8>)
    requires
        list_well_formed(l),
        h.len() == 32,
        !list_contains(l, h),
    ensures
        list_remove(l + h, h) == l,
{
    let m = l + h;
    let n = m.len() as int;
    assert(m.subrange(0, n - 32) =~= l);
    assert(m.subrange(n - 32, n) =~= h);
    lemma_remove_absent(l, h);
}

/// The set laws of hash lists: adding then removing a new digest is the
/// identity, adding twice is adding once, and adding grows a list by zero or
/// one digest.
pub proof fn lemma_hash_list_laws(l: Seq<u8>, h: Seq<u8>)
    requires
        list_well_formed(l),
        h.len() == 32,
    ensures
        !list_contains(l, h) ==> list_remove(list_add(l, h), h) == l,
        list_add(list_add(l, h), h) == list_add(l, h),
        list_add(l, h).len() == l.len() || list_add(l, h).len() == l.len() + 32,
{
    if !list_contains(l, h) {
        lemma_remove_appended(l, h);
        let m = l + h;
        let k = (l.len() / 32) as int;
        assert(hash_at(m, k) =~= h);
        assert(list_contains(m, h));
    }
}

/// The digests of `a ++ b` are those of `a` followed by those of `b`.
proof fn lemma_hash_at_concat(a: Seq<u8>, b: Seq<u8>, i: int)
    requires
        list_well_formed(a),
        0 <= i,
        32 * i + 32 <= a.len() + b.len(),
    ensures
        i < a.len() / 32 ==> hash_at(a + b, i) == hash_at(a, i),
        i >= a.len() / 32 ==> hash_at(a + b, i) == hash_at(b, i - a.len() / 32),
{
    if i < a.len() / 32 {
        assert(hash_at(a + b, i) =~= hash_at(a, i));
    } else {
        assert(hash_at(a + b, i) =~= hash_at(b, i - a.len() / 32));
    }
}

/// Adding a digest to a well-formed list gives a well-formed list that holds it.
pub proof fn lemma_add_holds(l: Seq<u8>, h: Seq<u8>)
    requires
        list_well_formed(l),
        h.len() == 32,
    ensures
        list_well_formed(list_add(l, h)),
        list_contains(list_add(l, h), h),
{
    if !list_contains(l, h) {
        let k = (l.len() / 32) as int;
        lemma_hash_at_concat(l, h, k);
        assert(hash_at(h, 0) =~= h);
        assert(hash_at(l + h, k) == h);
    }
}

/// Removing a digest from a well-formed list gives a well-formed list without
/// it, shorter than the list wherever the list held it.
pub proof fn lemma_remove_excludes(l: Seq<u8>, h: Seq<u8>)
    requires
        list_well_formed(l),
        h.len() == 32,
    ensures
        list_well_formed(list_remove(l, h)),
        !list_contains(list_remove(l, h), h),
        list_remove(l, h).len() <= l.len(),
        list_contains(l, h) ==> list_remove(l, h).len() < l.len(),
    decreases l.len(),
{
    if l.len() < 32 {
        assert(l.len() == 0);
    } else {
        let n = l.len() as int;
        let init = l.subrange(0, n - 32);
        let last = l.subrange(n - 32, n);
        lemma_remove_excludes(init, h);
        let ri = list_remove(init, h);
        if last != h {
            let r = ri + last;
            assert forall|i: int| 0 <= i < r.len() / 32 implies #[trigger] hash_at(r, i) != h by {
                lemma_hash_at_concat(ri, last, i);
                if i >= ri.len() / 32 {
                    assert(hash_at(last, 0) =~= last);
                }
            }
        }
        if list_contains(l, h) {
            let i = choose|i: int| 0 <= i < l.len() / 32 && #[trigger] hash_at(l, i) == h;
            assert(init + last =~= l);
            lemma_hash_at_concat(init, last, i);
            if i >= init.len() / 32 {
                assert(hash_at(last, 0) =~= last);
            } else {
                assert(list_contains(init, h));
            }
        }
    }
}

} // verus!
