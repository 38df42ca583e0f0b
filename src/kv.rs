use vstd::prelude::*;
use crate::codec::copy_bytes;

verus! {

/// A typed value of the key-value store.
#[derive(Debug, PartialEq, Eq)]
pub enum KvValue {
    I64(i64),
    U64(u64),
    Bool(bool),
    Blob(Vec<u8>),
    /// A value of a type this store never writes.
    Other,
}

/// The mathematical value of a `KvValue`.
pub enum KvVal {
    I64(i64),
    U64(u64),
    Bool(bool),
    Blob(Seq<u8>),
    Other,
}

impl View for KvValue {
    type V = KvVal;

    open spec fn view(&self) -> KvVal {
        match self {
            KvValue::I64(i) => KvVal::I64(*i),
            KvValue::U64(u) => KvVal::U64(*u),
            KvValue::Bool(b) => KvVal::Bool(*b),
            KvValue::Blob(b) => KvVal::Blob(b@),
            KvValue::Other => KvVal::Other,
        }
    }
}

impl KvValue {
    /// An equal, independent value.
    pub fn duplicate(&self) -> (r: KvValue)
        ensures
            r@ == self@,
    {
        match self {
            KvValue::I64(i) => KvValue::I64(*i),
            KvValue::U64(u) => KvValue::U64(*u),
            KvValue::Bool(b) => KvValue::Bool(*b),
            KvValue::Blob(b) => KvValue::Blob(copy_bytes(b.as_slice())),
            KvValue::Other => KvValue::Other,
        }
    }
}

/// A write waiting to be made durable.
#[derive(Debug, PartialEq, Eq)]
pub enum KvOp {
    Put(Vec<u8>, KvValue),
    Delete(Vec<u8>),
}

/// The mathematical value of a `KvOp`.
pub enum KvOpVal {
    Put(Seq<u8>, KvVal),
    Delete(Seq<u8>),
}

impl View for KvOp {
    type V = KvOpVal;

    open spec fn view(&self) -> KvOpVal {
        match self {
            KvOp::Put(k, v) => KvOpVal::Put(k@, v@),
            KvOp::Delete(k) => KvOpVal::Delete(k@),
        }
    }
}

/// The map that a sequence of records gives when each is put in turn.
pub open spec fn records_map(s: Seq<(Seq<u8>, KvVal)>) -> Map<Seq<u8>, KvVal>
    decreases s.len(),
{
    if s.len() == 0 {
        Map::empty()
    } else {
        records_map(s.drop_last()).insert(s.last().0, s.last().1)
    }
}

/// Applies a sequence of writes to a map, in order.
pub open spec fn apply_ops(m: Map<Seq<u8>, KvVal>, ops: Seq<KvOpVal>) -> Map<Seq<u8>, KvVal>
    decreases ops.len(),
{
    if ops.len() == 0 {
        m
    } else {
        let prev = apply_ops(m, ops.drop_last());
        match ops.last() {
            KvOpVal::Put(k, v) => prev.insert(k, v),
            KvOpVal::Delete(k) => prev.remove(k),
        }
    }
}

/// Whether two byte strings are equal.
pub fn bytes_eq(a: &[u8], b: &[u8]) -> (r: bool)
    ensures
        r == (a@ == b@),
{
    if a.len() != b.len() {
        return false;
    }
    let n = a.len();
    let mut i: usize = 0;
    while i < n
        invariant
            n == a@.len(),
            n == b@.len(),
            i <= n,
            forall|k: int| 0 <= k < i ==> a@[k] == b@[k],
        decreases n - i,
    {
        if a[i] != b[i] {
            return false;
        }
        i = i + 1;
    }
    assert(a@ =~= b@);
    true
}

/// Lexicographic order on byte strings: `a` comes strictly before `b`.
pub open spec fn bytes_lt(a: Seq<u8>, b: Seq<u8>) -> bool
    decreases a.len(),
{
    if a.len() == 0 {
        b.len() > 0
    } else if b.len() == 0 {
        false
    } else if a[0] != b[0] {
        a[0] < b[0]
    } else {
        bytes_lt(a.drop_first(), b.drop_first())
    }
}

proof fn lemma_lt_irreflexive(a: Seq<u8>)
    ensures
        !bytes_lt(a, a),
    decreases a.len(),
{
    if a.len() > 0 {
        lemma_lt_irreflexive(a.drop_first());
    }
}

proof fn lemma_lt_transitive(a: Seq<u8>, b: Seq<u8>, c: Seq<u8>)
    requires
        bytes_lt(a, b),
        bytes_lt(b, c),
    ensures
        bytes_lt(a, c),
    decreases a.len(),
{
    if a.len() > 0 && b.len() > 0 && c.len() > 0 && a[0] == b[0] && b[0] == c[0] {
        lemma_lt_transitive(a.drop_first(), b.drop_first(), c.drop_first());
    }
}

/// Three-way comparison of byte strings: negative, zero or positive as `a`
/// comes before, equals or comes after `b`.
pub fn compare_bytes(a: &[u8], b: &[u8]) -> (r: i8)
    ensures
        (r < 0) == bytes_lt(a@, b@),
        (r == 0) == (a@ == b@),
        (r > 0) == bytes_lt(b@, a@),
{
    let n = a.len();
    let m = b.len();
    let mut i: usize = 0;
    assert(a@.subrange(0, n as int) =~= a@);
    assert(b@.subrange(0, m as int) =~= b@);
    while i < n && i < m
        invariant
            n == a@.len(),
            m == b@.len(),
            i <= n,
            i <= m,
            forall|k: int| 0 <= k < i ==> a@[k] == b@[k],
            bytes_lt(a@, b@) == bytes_lt(a@.subrange(i as int, n as int), b@.subrange(i as int, m as int)),
            bytes_lt(b@, a@) == bytes_lt(b@.subrange(i as int, m as int), a@.subrange(i as int, n as int)),
        decreases n - i,
    {
        let ghost ai = a@.subrange(i as int, n as int);
        let ghost bi = b@.subrange(i as int, m as int);
        assert(ai[0] == a@[i as int] && bi[0] == b@[i as int]);
        if a[i] < b[i] {
            assert(a@ != b@ && !bytes_lt(bi, ai));
            return -1;
        }
        if a[i] > b[i] {
            assert(a@ != b@ && !bytes_lt(ai, bi));
            return 1;
        }
        assert(ai.drop_first() =~= a@.subrange(i + 1, n as int));
        assert(bi.drop_first() =~= b@.subrange(i + 1, m as int));
        i = i + 1;
    }
    if n == m {
        assert(a@ =~= b@);
        proof {
            lemma_lt_irreflexive(a@);
        }
        0
    } else if i == n {
        assert(a@ != b@);
        -1
    } else {
        assert(a@ != b@);
        1
    }
}

/// The entries have unique keys, in increasing order, and hold exactly the
/// map `m`.
pub closed spec fn entries_hold(entries: Seq<(Vec<u8>, KvValue)>, m: Map<Seq<u8>, KvVal>) -> bool {
    &&& forall|i: int, j: int|
        0 <= i < j < entries.len() ==> #[trigger] entries[i].0@ != #[trigger] entries[j].0@
    &&& forall|i: int|
        0 <= i < entries.len() ==> m.contains_key(#[trigger] entries[i].0@) && m[entries[i].0@]
            == entries[i].1@
    &&& forall|k: Seq<u8>| #[trigger]
        m.contains_key(k) ==> exists|i: int| 0 <= i < entries.len() && #[trigger] entries[i].0@ == k
    &&& forall|i: int, j: int|
        0 <= i < j < entries.len() ==> bytes_lt(#[trigger] entries[i].0@, #[trigger] entries[j].0@)
}

/// An in-memory view of the single store of the key-value database: binary
/// keys to typed values, together with the writes not yet made durable.
///
/// The records are kept in a vector sorted by key and found by binary search:
/// vstd specifies std's `HashMap` and `BTreeMap` only for keys whose hashing
/// or ordering it models, and byte-string keys are not among them, so a std
/// map here would leave every lookup unproved.
pub struct KvStore {
    entries: Vec<(Vec<u8>, KvValue)>,
    pending: Vec<KvOp>,
    contents: Ghost<Map<Seq<u8>, KvVal>>,
    durable: Ghost<Map<Seq<u8>, KvVal>>,
}

impl View for KvStore {
    type V = Map<Seq<u8>, KvVal>;

    closed spec fn view(&self) -> Map<Seq<u8>, KvVal> {
        self.contents@
    }
}

impl KvStore {
    /// The entries, in key order, hold exactly the contents, and the pending
    /// writes lead from the durable contents to them.
    pub closed spec fn wf(&self) -> bool {
        &&& entries_hold(self.entries@, self.contents@)
        &&& apply_ops(self.durable@, self.pending@.map_values(|op: KvOp| op@)) == self.contents@
    }

    /// The contents as they were when no write was pending: the pending
    /// writes, applied in order to this map, give the contents.
    pub closed spec fn durable(&self) -> Map<Seq<u8>, KvVal> {
        self.durable@
    }

    /// The writes made since the last `take_pending`, in order.
    pub closed spec fn pending_ops(&self) -> Seq<KvOpVal> {
        self.pending@.map_values(|op: KvOp| op@)
    }

    /// An empty store.
    pub fn new() -> (r: KvStore)
        ensures
            r.wf(),
            r@ == Map::<Seq<u8>, KvVal>::empty(),
            r.pending_ops() == Seq::<KvOpVal>::empty(),
    {
        let r = KvStore {
            entries: Vec::new(),
            pending: Vec::new(),
            contents: Ghost(Map::empty()),
            durable: Ghost(Map::empty()),
        };
        assert(r.pending_ops() =~= Seq::<KvOpVal>::empty());
        r
    }

    /// A store holding the given records, a later record of a key replacing an
    /// earlier one; no write is pending.
    pub fn from_records(records: &Vec<(Vec<u8>, KvValue)>) -> (r: KvStore)
        ensures
            r.wf(),
            r@ == records_map(records@.map_values(|e: (Vec<u8>, KvValue)| (e.0@, e.1@))),
            r.pending_ops() == Seq::<KvOpVal>::empty(),
            r.durable() == r@,
    {
        let ghost all = records@.map_values(|e: (Vec<u8>, KvValue)| (e.0@, e.1@));
        let mut store = KvStore::new();
        let n = records.len();
        let mut i: usize = 0;
        while i < n
            invariant
                n == records@.len(),
                all == records@.map_values(|e: (Vec<u8>, KvValue)| (e.0@, e.1@)),
                i <= n,
                entries_hold(store.entries@, store.contents@),
                store@ == records_map(all.subrange(0, i as int)),
                store.pending@.len() == 0,
            decreases n - i,
        {
            let key = copy_bytes(records[i].0.as_slice());
            let value = records[i].1.duplicate();
            store.set_entry(key, value);
            assert(all.subrange(0, i + 1).drop_last() =~= all.subrange(0, i as int));
            i = i + 1;
        }
        assert(all.subrange(0, n as int) =~= all);
        store.durable = Ghost(store.contents@);
        assert(store.pending_ops() =~= Seq::<KvOpVal>::empty());
        store
    }

    /// Stores `value` under `key` in the entries and the contents alone.
    fn set_entry(&mut self, key: Vec<u8>, value: KvValue)
        requires
            entries_hold(old(self).entries@, old(self).contents@),
        ensures
            entries_hold(final(self).entries@, final(self).contents@),
            final(self).contents@ == old(self).contents@.insert(key@, value@),
            final(self).pending == old(self).pending,
            final(self).durable == old(self).durable,
    {
        let ghost k = key@;
        let ghost v = value@;
        let ghost before = self.entries@;
        match self.find(key.as_slice()) {
            Ok(i) => {
                self.entries[i] = (key, value);
                self.contents = Ghost(self.contents@.insert(k, v));
                assert forall|j: int| 0 <= j < self.entries@.len() implies #[trigger] self.entries@[j].0@
                    == before[j].0@ by {}
                assert forall|q: Seq<u8>| #[trigger] self.contents@.contains_key(q) implies exists|
                    j: int,
                | 0 <= j < self.entries@.len() && #[trigger] self.entries@[j].0@ == q by {
                    if q == k {
                        assert(self.entries@[i as int].0@ == q);
                    } else {
                        let j = choose|j: int| 0 <= j < before.len() && #[trigger] before[j].0@ == q;
                        assert(self.entries@[j].0@ == q);
                    }
                }
            },
            Err(pos) => {
                self.entries.insert(pos, (key, value));
                self.contents = Ghost(self.contents@.insert(k, v));
                let ghost after = self.entries@;
                assert(after[pos as int].0@ == k);
                assert forall|x: int, y: int| 0 <= x < y < after.len() implies bytes_lt(
                    #[trigger] after[x].0@,
                    #[trigger] after[y].0@,
                ) by {
                    let x0 = if x < pos { x } else { x - 1 };
                    let y0 = if y < pos { y } else { y - 1 };
                    if x != pos && y != pos {
                        assert(after[x] == before[x0] && after[y] == before[y0]);
                    } else if x == pos {
                        assert(after[y] == before[y0]);
                    } else {
                        assert(after[x] == before[x0]);
                    }
                }
                assert forall|x: int, y: int| 0 <= x < y < after.len() implies #[trigger] after[x].0@
                    != #[trigger] after[y].0@ by {
                    lemma_lt_irreflexive(after[x].0@);
                }
                assert forall|x: int| 0 <= x < after.len() implies self.contents@.contains_key(
                    #[trigger] after[x].0@,
                ) && self.contents@[after[x].0@] == after[x].1@ by {
                    if x != pos {
                        let x0 = if x < pos { x } else { x - 1 };
                        assert(after[x] == before[x0]);
                        assert(old(self).contents@.contains_key(before[x0].0@));
                    }
                }
                assert forall|q: Seq<u8>| #[trigger] self.contents@.contains_key(q) implies exists|
                    j: int,
                | 0 <= j < after.len() && #[trigger] after[j].0@ == q by {
                    if q == k {
                        assert(after[pos as int].0@ == q);
                    } else {
                        let j = choose|j: int| 0 <= j < before.len() && #[trigger] before[j].0@ == q;
                        if j < pos {
                            assert(after[j].0@ == q);
                        } else {
                            assert(after[j + 1].0@ == q);
                        }
                    }
                }
            },
        }
    }

    /// Stores `value` under `key`, replacing any earlier value, and records the write.
    pub fn put(&mut self, key: &[u8], value: KvValue)
        requires
            old(self).wf(),
        ensures
            final(self).wf(),
            final(self)@ == old(self)@.insert(key@, value@),
            final(self).pending_ops() == old(self).pending_ops().push(KvOpVal::Put(key@, value@)),
            final(self).durable() == old(self).durable(),
    {
        let logged_key = copy_bytes(key);
        let logged_value = value.duplicate();
        self.set_entry(copy_bytes(key), value);
        self.pending.push(KvOp::Put(logged_key, logged_value));
        assert(self.pending_ops() =~= old(self).pending_ops().push(KvOpVal::Put(key@, value@)));
        assert(self.pending_ops().drop_last() =~= old(self).pending_ops());
        assert(entries_hold(self.entries@, self.contents@));
    }

    /// Removes any value stored under `key`, and records the write.
    pub fn delete(&mut self, key: &[u8])
        requires
            old(self).wf(),
        ensures
            final(self).wf(),
            final(self)@ == old(self)@.remove(key@),
            final(self).pending_ops() == old(self).pending_ops().push(KvOpVal::Delete(key@)),
            final(self).durable() == old(self).durable(),
    {
        match self.find(key) {
            Ok(i) => {
                let ghost before = self.entries@;
                self.entries.remove(i);
                assert forall|a: int, b: int|
                    0 <= a < b < self.entries@.len() implies bytes_lt(
                    #[trigger] self.entries@[a].0@,
                    #[trigger] self.entries@[b].0@,
                ) by {
                    let a0 = if a < i { a } else { a + 1 };
                    let b0 = if b < i { b } else { b + 1 };
                    assert(bytes_lt(before[a0].0@, before[b0].0@));
                }
                self.contents = Ghost(self.contents@.remove(key@));
                assert forall|a: int, b: int|
                    0 <= a < b < self.entries@.len() implies #[trigger] self.entries@[a].0@
                    != #[trigger] self.entries@[b].0@ by {
                    let a0 = if a < i { a } else { a + 1 };
                    let b0 = if b < i { b } else { b + 1 };
                    assert(before[a0].0@ != before[b0].0@);
                }
                assert forall|a: int| 0 <= a < self.entries@.len() implies self.contents@.contains_key(
                    #[trigger] self.entries@[a].0@,
                ) && self.contents@[self.entries@[a].0@] == self.entries@[a].1@ by {
                    let a0 = if a < i { a } else { a + 1 };
                    assert(before[a0].0@ != before[i as int].0@);
                }
                assert forall|q: Seq<u8>| #[trigger] self.contents@.contains_key(q) implies exists|
                    j: int,
                | 0 <= j < self.entries@.len() && #[trigger] self.entries@[j].0@ == q by {
                    let j = choose|j: int|
                        0 <= j < old(self).entries@.len() && #[trigger] old(self).entries@[j].0@
                            == q;
                    if j < i {
                        assert(self.entries@[j].0@ == q);
                    } else {
                        assert(self.entries@[j - 1].0@ == q);
                    }
                }
            },
            Err(_) => {
                assert(self.contents@.remove(key@) =~= self.contents@);
            },
        }
        let op = KvOp::Delete(copy_bytes(key));
        assert(entries_hold(self.entries@, self.contents@));
        self.pending.push(op);
        assert(self.pending_ops() =~= old(self).pending_ops().push(KvOpVal::Delete(key@)));
        assert(self.pending_ops().drop_last() =~= old(self).pending_ops());
        assert(entries_hold(self.entries@, self.contents@));
    }

    /// Hands out the pending writes, oldest first; the contents count as
    /// durable from here on.
    pub fn take_pending(&mut self) -> (r: Vec<KvOp>)
        requires
            old(self).wf(),
        ensures
            final(self).wf(),
            final(self)@ == old(self)@,
            r@.map_values(|op: KvOp| op@) == old(self).pending_ops(),
            apply_ops(old(self).durable(), r@.map_values(|op: KvOp| op@)) == old(self)@,
            final(self).pending_ops() == Seq::<KvOpVal>::empty(),
            final(self).durable() == old(self)@,
    {
        let r = self.pending.split_off(0);
        assert(r@ =~= old(self).pending@);
        self.durable = Ghost(self.contents@);
        assert(self.pending_ops() =~= Seq::<KvOpVal>::empty());
        assert(entries_hold(self.entries@, self.contents@));
        assert(self.pending_ops() =~= Seq::<KvOpVal>::empty());
        r
    }

    /// An independent copy with the same contents and pending writes.
    pub fn snapshot(&self) -> (r: KvStore)
        requires
            self.wf(),
        ensures
            r.wf(),
            r@ == self@,
            r.pending_ops() == self.pending_ops(),
            r.durable() == self.durable(),
    {
        let mut entries: Vec<(Vec<u8>, KvValue)> = Vec::with_capacity(self.entries.len());
        let n = self.entries.len();
        let mut i: usize = 0;
        while i < n
            invariant
                n == self.entries@.len(),
                i <= n,
                entries@.len() == i,
                forall|j: int|
                    0 <= j < i ==> (#[trigger] entries@[j]).0@ == self.entries@[j].0@
                        && entries@[j].1@ == self.entries@[j].1@,
            decreases n - i,
        {
            let e = &self.entries[i];
            entries.push((copy_bytes(e.0.as_slice()), e.1.duplicate()));
            i = i + 1;
        }
        let mut pending: Vec<KvOp> = Vec::with_capacity(self.pending.len());
        let p = self.pending.len();
        let mut k: usize = 0;
        while k < p
            invariant
                p == self.pending@.len(),
                k <= p,
                pending@.len() == k,
                forall|j: int| 0 <= j < k ==> (#[trigger] pending@[j])@ == self.pending@[j]@,
            decreases p - k,
        {
            let op = match &self.pending[k] {
                KvOp::Put(key, v) => KvOp::Put(copy_bytes(key.as_slice()), v.duplicate()),
                KvOp::Delete(key) => KvOp::Delete(copy_bytes(key.as_slice())),
            };
            pending.push(op);
            k = k + 1;
        }
        let r = KvStore {
            entries,
            pending,
            contents: Ghost(self.contents@),
            durable: Ghost(self.durable@),
        };
        assert(r.pending_ops() =~= self.pending_ops());
        assert forall|a: int, b: int|
            0 <= a < b < r.entries@.len() implies #[trigger] r.entries@[a].0@
            != #[trigger] r.entries@[b].0@ by {
            assert(self.entries@[a].0@ != self.entries@[b].0@);
        }
        assert forall|a: int, b: int|
            0 <= a < b < r.entries@.len() implies bytes_lt(
            #[trigger] r.entries@[a].0@,
            #[trigger] r.entries@[b].0@,
        ) by {
            assert(bytes_lt(self.entries@[a].0@, self.entries@[b].0@));
        }
        assert forall|a: int| 0 <= a < r.entries@.len() implies r.contents@.contains_key(
            #[trigger] r.entries@[a].0@,
        ) && r.contents@[r.entries@[a].0@] == r.entries@[a].1@ by {
            assert(self.contents@.contains_key(self.entries@[a].0@));
        }
        assert forall|q: Seq<u8>| #[trigger] r.contents@.contains_key(q) implies exists|j: int|
            0 <= j < r.entries@.len() && #[trigger] r.entries@[j].0@ == q by {
            let j = choose|j: int| 0 <= j < self.entries@.len() && #[trigger] self.entries@[j].0@ == q;
            assert(r.entries@[j].0@ == q);
        }
        r
    }

    /// The index of the entry with key `key`, or else the index at which an
    /// entry with that key would keep the keys in order.
    fn find(&self, key: &[u8]) -> (r: Result<usize, usize>)
        requires
            entries_hold(self.entries@, self.contents@),
        ensures
            match r {
                Ok(i) => i < self.entries@.len() && self.entries@[i as int].0@ == key@,
                Err(i) => {
                    &&& i <= self.entries@.len()
                    &&& !self.contents@.contains_key(key@)
                    &&& forall|j: int| 0 <= j < i ==> bytes_lt(#[trigger] self.entries@[j].0@, key@)
                    &&& forall|j: int|
                        i <= j < self.entries@.len() ==> bytes_lt(key@, #[trigger] self.entries@[j].0@)
                },
            },
    {
        let mut lo: usize = 0;
        let mut hi: usize = self.entries.len();
        while lo < hi
            invariant
                entries_hold(self.entries@, self.contents@),
                lo <= hi <= self.entries@.len(),
                forall|j: int| 0 <= j < lo ==> bytes_lt(#[trigger] self.entries@[j].0@, key@),
                forall|j: int|
                    hi <= j < self.entries@.len() ==> bytes_lt(key@, #[trigger] self.entries@[j].0@),
            decreases hi - lo,
        {
            let mid = lo + (hi - lo) / 2;
            let c = compare_bytes(self.entries[mid].0.as_slice(), key);
            if c == 0 {
                return Ok(mid);
            }
            let ghost em = self.entries@[mid as int].0@;
            if c < 0 {
                assert forall|j: int| 0 <= j < mid + 1 implies bytes_lt(
                    #[trigger] self.entries@[j].0@,
                    key@,
                ) by {
                    if j < mid {
                        lemma_lt_transitive(self.entries@[j].0@, em, key@);
                    }
                }
                lo = mid + 1;
            } else {
                assert forall|j: int| mid <= j < self.entries@.len() implies bytes_lt(
                    key@,
                    #[trigger] self.entries@[j].0@,
                ) by {
                    if j > mid {
                        lemma_lt_transitive(key@, em, self.entries@[j].0@);
                    }
                }
                hi = mid;
            }
        }
        proof {
            if self.contents@.contains_key(key@) {
                let j = choose|j: int|
                    0 <= j < self.entries@.len() && #[trigger] self.entries@[j].0@ == key@;
                lemma_lt_irreflexive(key@);
                assert(bytes_lt(self.entries@[j].0@, key@) || bytes_lt(key@, self.entries@[j].0@));
            }
        }
        Err(lo)
    }

    /// The value stored under `key`, if any.
    pub fn get(&self, key: &[u8]) -> (r: Option<KvValue>)
        requires
            self.wf(),
        ensures
            match r {
                Some(v) => self@.contains_key(key@) && self@[key@] == v@,
                None => !self@.contains_key(key@),
            },
    {
        match self.find(key) {
            Ok(i) => Some(self.entries[i].1.duplicate()),
            Err(_) => None,
        }
    }

}

} // verus!
