use vstd::prelude::*;
use clubcard::{ApproximateSizeOf, Queryable};
use clubcard_crlite::{
    CRLiteClubcard, CRLiteKey, CRLiteQuery, CRLiteStatus, IssuerSpkiHash, LogId, Timestamp,
};
use crate::codec::{copy_bytes, copy_range};
use crate::error::SecurityStateError;

verus! {

/// The revocation state is unknown, or the certificate is not revoked.
pub const STATE_UNSET: i16 = 0;

/// The certificate is revoked.
pub const STATE_ENFORCE: i16 = 1;

/// The issuer is not enrolled in CRLite.
pub const STATE_NOT_ENROLLED: i16 = 2;

/// The certificate's timestamps are not covered by the filter.
pub const STATE_NOT_COVERED: i16 = 3;

/// No usable filter is available.
pub const STATE_NO_FILTER: i16 = 4;

#[verifier::external_type_specification]
#[verifier::external_body]
pub struct ExCRLiteClubcard(CRLiteClubcard);

/// Whether `CRLiteClubcard::from_bytes` accepts `bytes`.
pub uninterp spec fn clubcard_parses(bytes: Seq<u8>) -> bool;

/// The index of the clubcard parsed from `filter`: for each entry, in key
/// order, its approximate-filter rank, approximate-filter `m` and offset, and
/// exact-filter `m` and offset; and the number of rows of its approximate
/// filter.
pub uninterp spec fn clubcard_layout(filter: Seq<u8>) -> (Seq<(usize, usize, usize, usize, usize)>, usize);

/// Whether the clubcard parsed from `filter` covers the log and timestamp.
pub uninterp spec fn clubcard_covers(
    filter: Seq<u8>,
    issuer_hash: Seq<u8>,
    serial: Seq<u8>,
    log_id: Seq<u8>,
    timestamp: u64,
) -> bool;

/// The verdict of the clubcard parsed from `filter` on a key, given the logs
/// and timestamps of the certificate.
pub uninterp spec fn clubcard_status(
    filter: Seq<u8>,
    issuer_hash: Seq<u8>,
    serial: Seq<u8>,
    logs: Seq<(Seq<u8>, u64)>,
) -> FilterStatus;

/// A signed certificate timestamp: the log that issued it and its time.
#[derive(Clone, Debug)]
pub struct CRLiteTimestamp {
    pub log_id: Vec<u8>,
    pub timestamp: u64,
}

/// The verdict of one filter on one certificate.
#[derive(Clone, Copy, Debug, PartialEq, Eq, Structural)]
pub enum FilterStatus {
    Good,
    NotCovered,
    NotEnrolled,
    Revoked,
}

/// The logs and timestamps of a sequence of timestamps.
pub open spec fn logs_of(ts: Seq<CRLiteTimestamp>) -> Seq<(Seq<u8>, u64)> {
    ts.map_values(|t: CRLiteTimestamp| (t.log_id@, t.timestamp))
}

/// Relies on `CRLiteClubcard::from_bytes`: whether it accepts the bytes depends
/// on the bytes alone. The filter keeps the bytes it was parsed from.
#[verifier::external_body]
fn parse_filter(bytes: &[u8]) -> (r: Option<Filter>)
    ensures
        r is Some <==> clubcard_parses(bytes@),
        r matches Some(f) ==> f@ == bytes@,
{
    CRLiteClubcard::from_bytes(bytes).ok().map(|clubcard| Filter { clubcard, bytes: Ghost(bytes@) })
}

/// Relies on `CRLiteClubcard::as_ref` giving the clubcard's public `index`
/// and `approx_filter`: the fields of each index entry, in key order, and the
/// number of rows of the approximate filter.
#[verifier::external_body]
fn filter_layout(f: &Filter) -> (r: (Vec<(usize, usize, usize, usize, usize)>, usize))
    ensures
        r.0@ == clubcard_layout(f@).0,
        r.1 == clubcard_layout(f@).1,
{
    let card: &clubcard::Clubcard<4, clubcard_crlite::CRLiteCoverage, ()> = f.clubcard.as_ref();
    let entries = card.index.values().map(|e| (
        e.approx_filter_rank, e.approx_filter_m, e.approx_filter_offset,
        e.exact_filter_m, e.exact_filter_offset,
    ));
    (entries.collect(), card.approx_filter.len())
}

/// Relies on `CRLiteQuery::in_universe` against `CRLiteClubcard::universe`:
/// whether the filter covers the log and timestamp.
#[verifier::external_body]
fn timestamp_in_universe(
    f: &Filter,
    issuer_hash: &[u8],
    serial: &[u8],
    log_id: &[u8],
    timestamp: u64,
) -> (r: bool)
    requires
        issuer_hash@.len() == 32,
        log_id@.len() == 32,
    ensures
        r == clubcard_covers(f@, issuer_hash@, serial@, log_id@, timestamp),
{
    let issuer = IssuerSpkiHash(issuer_hash.try_into().unwrap());
    let key = CRLiteKey::new(&issuer, serial);
    let log = (LogId(log_id.try_into().unwrap()), Timestamp(timestamp));
    CRLiteQuery::new(&key, Some(log)).in_universe(f.clubcard.universe())
}

/// Relies on `CRLiteClubcard::contains`: the filter's verdict on the key, given
/// the timestamps. The query indexes the approximate filter up to each entry's
/// rank and adds each entry's offsets, so a sound layout keeps it from
/// panicking.
#[verifier::external_body]
fn clubcard_contains(
    f: &Filter,
    issuer_hash: &[u8],
    serial: &[u8],
    timestamps: &Vec<CRLiteTimestamp>,
) -> (r: FilterStatus)
    requires
        issuer_hash@.len() == 32,
        forall|i: int| 0 <= i < timestamps@.len() ==> #[trigger] timestamps@[i].log_id@.len() == 32,
        layout_sound(clubcard_layout(f@)),
    ensures
        r == clubcard_status(f@, issuer_hash@, serial@, logs_of(timestamps@)),
{
    let issuer = IssuerSpkiHash(issuer_hash.try_into().unwrap());
    let key = CRLiteKey::new(&issuer, serial);
    let logs = timestamps.iter().map(|t| (LogId(t.log_id[..].try_into().unwrap()), Timestamp(t.timestamp)));
    match f.clubcard.contains(&key, logs) {
        CRLiteStatus::Good => FilterStatus::Good,
        CRLiteStatus::NotCovered => FilterStatus::NotCovered,
        CRLiteStatus::NotEnrolled => FilterStatus::NotEnrolled,
        CRLiteStatus::Revoked => FilterStatus::Revoked,
    }
}

/// Relies on `ApproximateSizeOf::approximate_size_of` for `CRLiteClubcard`: an
/// estimate of the heap memory the filter holds. It depends on the machine's
/// type sizes, so nothing is stated of it.
#[verifier::external_body]
fn clubcard_approximate_size(f: &Filter) -> usize {
    f.clubcard.approximate_size_of()
}

/// An index entry can be queried without panicking: its rank is at most the
/// number of rows of the approximate filter, and its offsets plus `m` fit in a
/// `usize`.
pub open spec fn entry_sound(e: (usize, usize, usize, usize, usize), rows: usize) -> bool {
    &&& e.0 <= rows
    &&& e.1 + e.2 <= usize::MAX
    &&& e.3 + e.4 <= usize::MAX
}

/// Every index entry of a layout can be queried.
pub open spec fn layout_sound(l: (Seq<(usize, usize, usize, usize, usize)>, usize)) -> bool {
    forall|i: int| 0 <= i < l.0.len() ==> entry_sound(#[trigger] l.0[i], l.1)
}

/// Bytes that parse as a clubcard whose layout can be queried.
pub open spec fn usable_filter(bytes: Seq<u8>) -> bool {
    clubcard_parses(bytes) && layout_sound(clubcard_layout(bytes))
}

/// The timestamps whose log id is 32 bytes long, in order.
pub open spec fn usable_logs(logs: Seq<(Seq<u8>, u64)>) -> Seq<(Seq<u8>, u64)>
    decreases logs.len(),
{
    if logs.len() == 0 {
        Seq::empty()
    } else {
        let rest = usable_logs(logs.drop_last());
        if logs.last().0.len() == 32 {
            rest.push(logs.last())
        } else {
            rest
        }
    }
}

/// How many of `logs` the filter covers.
pub open spec fn covered_count(
    filter: Seq<u8>,
    issuer_hash: Seq<u8>,
    serial: Seq<u8>,
    logs: Seq<(Seq<u8>, u64)>,
) -> nat
    decreases logs.len(),
{
    if logs.len() == 0 {
        0
    } else {
        covered_count(filter, issuer_hash, serial, logs.drop_last()) + if clubcard_covers(
            filter,
            issuer_hash,
            serial,
            logs.last().0,
            logs.last().1,
        ) {
            1nat
        } else {
            0nat
        }
    }
}

/// The state the filter parsed from `filter` reports for a key: not covered
/// when fewer than `min_coverage` of the usable timestamps fall within its
/// coverage, else the state of its verdict.
pub open spec fn filter_state(
    filter: Seq<u8>,
    issuer_hash: Seq<u8>,
    serial: Seq<u8>,
    logs: Seq<(Seq<u8>, u64)>,
    min_coverage: u64,
) -> i16 {
    let usable = usable_logs(logs);
    if covered_count(filter, issuer_hash, serial, usable) < min_coverage {
        STATE_NOT_COVERED
    } else {
        status_state(clubcard_status(filter, issuer_hash, serial, usable))
    }
}

proof fn lemma_usable_logs_len(logs: Seq<(Seq<u8>, u64)>)
    ensures
        usable_logs(logs).len() <= logs.len(),
    decreases logs.len(),
{
    if logs.len() > 0 {
        lemma_usable_logs_len(logs.drop_last());
    }
}

proof fn lemma_covered_count_len(
    filter: Seq<u8>,
    issuer_hash: Seq<u8>,
    serial: Seq<u8>,
    logs: Seq<(Seq<u8>, u64)>,
)
    ensures
        covered_count(filter, issuer_hash, serial, logs) <= logs.len(),
    decreases logs.len(),
{
    if logs.len() > 0 {
        lemma_covered_count_len(filter, issuer_hash, serial, logs.drop_last());
    }
}

/// The coverage floor: with fewer timestamps than `min_coverage`, a filter
/// reports that the certificate is not covered.
pub proof fn lemma_coverage_floor(
    filter: Seq<u8>,
    issuer_hash: Seq<u8>,
    serial: Seq<u8>,
    logs: Seq<(Seq<u8>, u64)>,
    min_coverage: u64,
)
    ensures
        is_filter_state(filter_state(filter, issuer_hash, serial, logs, min_coverage)),
        logs.len() < min_coverage ==> filter_state(filter, issuer_hash, serial, logs, min_coverage)
            == STATE_NOT_COVERED,
{
    lemma_usable_logs_len(logs);
    lemma_covered_count_len(filter, issuer_hash, serial, usable_logs(logs));
}

/// The revocation state a filter verdict stands for.
pub open spec fn status_state(s: FilterStatus) -> i16 {
    match s {
        FilterStatus::Good => STATE_UNSET,
        FilterStatus::NotCovered => STATE_NOT_COVERED,
        FilterStatus::NotEnrolled => STATE_NOT_ENROLLED,
        FilterStatus::Revoked => STATE_ENFORCE,
    }
}

/// The revocation state a filter verdict stands for.
pub fn state_of_status(s: FilterStatus) -> (r: i16)
    ensures
        r == status_state(s),
{
    match s {
        FilterStatus::Good => STATE_UNSET,
        FilterStatus::NotCovered => STATE_NOT_COVERED,
        FilterStatus::NotEnrolled => STATE_NOT_ENROLLED,
        FilterStatus::Revoked => STATE_ENFORCE,
    }
}

/// A state that a single filter can report.
pub open spec fn is_filter_state(r: i16) -> bool {
    r == STATE_UNSET || r == STATE_ENFORCE || r == STATE_NOT_ENROLLED || r == STATE_NOT_COVERED
}

/// The state of a set of filters from the states of its members: a revocation
/// anywhere wins, then a good verdict, then non-enrollment; else not covered.
pub open spec fn aggregate_spec(states: Seq<i16>) -> i16 {
    if states.contains(STATE_ENFORCE) {
        STATE_ENFORCE
    } else if states.contains(STATE_UNSET) {
        STATE_UNSET
    } else if states.contains(STATE_NOT_ENROLLED) {
        STATE_NOT_ENROLLED
    } else {
        STATE_NOT_COVERED
    }
}

/// Aggregates the states that the filters of a set reported, in order.
pub fn aggregate_states(states: &[i16]) -> (r: i16)
    ensures
        r == aggregate_spec(states@),
{
    let mut maybe_good = false;
    let mut enrolled = false;
    let n = states.len();
    let mut i: usize = 0;
    while i < n
        invariant
            n == states@.len(),
            i <= n,
            forall|j: int| 0 <= j < i ==> states@[j] != STATE_ENFORCE,
            maybe_good <==> states@.subrange(0, i as int).contains(STATE_UNSET),
            enrolled <==> states@.subrange(0, i as int).contains(STATE_NOT_ENROLLED),
        decreases n - i,
    {
        let s = states[i];
        if s == STATE_ENFORCE {
            assert(states@[i as int] == STATE_ENFORCE);
            return STATE_ENFORCE;
        }
        let ghost before = states@.subrange(0, i as int);
        let ghost after = states@.subrange(0, i + 1);
        assert(after =~= before.push(s));
        if s == STATE_UNSET {
            maybe_good = true;
        }
        if s == STATE_NOT_ENROLLED {
            enrolled = true;
        }
        proof {
            if after.contains(STATE_UNSET) && s != STATE_UNSET {
                let j = choose|j: int| 0 <= j < after.len() && after[j] == STATE_UNSET;
                assert(before[j] == STATE_UNSET);
            }
            if after.contains(STATE_NOT_ENROLLED) && s != STATE_NOT_ENROLLED {
                let j = choose|j: int| 0 <= j < after.len() && after[j] == STATE_NOT_ENROLLED;
                assert(before[j] == STATE_NOT_ENROLLED);
            }
            if before.contains(STATE_UNSET) {
                let j = choose|j: int| 0 <= j < before.len() && before[j] == STATE_UNSET;
                assert(after[j] == STATE_UNSET);
            }
            if before.contains(STATE_NOT_ENROLLED) {
                let j = choose|j: int| 0 <= j < before.len() && before[j] == STATE_NOT_ENROLLED;
                assert(after[j] == STATE_NOT_ENROLLED);
            }
            if s == STATE_UNSET {
                assert(after[i as int] == STATE_UNSET);
            }
            if s == STATE_NOT_ENROLLED {
                assert(after[i as int] == STATE_NOT_ENROLLED);
            }
        }
        i = i + 1;
    }
    assert(states@.subrange(0, n as int) =~= states@);
    if maybe_good {
        return STATE_UNSET;
    }
    if enrolled {
        return STATE_NOT_ENROLLED;
    }
    STATE_NOT_COVERED
}

/// Aggregation precedence: a revocation reported by any filter wins whatever
/// the others say, in either order; a set in which every filter reports the
/// same state reports that state.
pub proof fn lemma_aggregation_precedence(states: Seq<i16>, s: i16)
    requires
        is_filter_state(s),
    ensures
        states.contains(STATE_ENFORCE) ==> aggregate_spec(states) == STATE_ENFORCE,
        aggregate_spec(seq![STATE_UNSET, STATE_ENFORCE]) == STATE_ENFORCE,
        aggregate_spec(seq![STATE_ENFORCE, STATE_UNSET]) == STATE_ENFORCE,
        (states.len() > 0 && forall|i: int| 0 <= i < states.len() ==> states[i] == s)
            ==> aggregate_spec(states) == s,
{
    assert(seq![STATE_UNSET, STATE_ENFORCE][1] == STATE_ENFORCE);
    assert(seq![STATE_ENFORCE, STATE_UNSET][0] == STATE_ENFORCE);
    if states.len() > 0 && forall|i: int| 0 <= i < states.len() ==> states[i] == s {
        assert(states[0] == s);
        assert(states.contains(s));
        assert forall|t: i16| t != s implies !states.contains(t) by {
            if states.contains(t) {
                let j = choose|j: int| 0 <= j < states.len() && states[j] == t;
                assert(states[j] == s);
            }
        }
    }
}

/// A parsed CRLite filter, full or delta, with the bytes it was parsed from.
pub struct Filter {
    clubcard: CRLiteClubcard,
    bytes: Ghost<Seq<u8>>,
}

impl View for Filter {
    type V = Seq<u8>;

    closed spec fn view(&self) -> Seq<u8> {
        self.bytes@
    }
}

/// Whether the layout of a parsed filter can be queried.
fn layout_is_sound(f: &Filter) -> (r: bool)
    ensures
        r == layout_sound(clubcard_layout(f@)),
{
    let (entries, rows) = filter_layout(f);
    let n = entries.len();
    let mut i: usize = 0;
    while i < n
        invariant
            n == entries@.len(),
            entries@ == clubcard_layout(f@).0,
            rows == clubcard_layout(f@).1,
            i <= n,
            forall|j: int| 0 <= j < i ==> entry_sound(#[trigger] entries@[j], rows),
        decreases n - i,
    {
        let e = entries[i];
        if !(e.0 <= rows && e.1 <= usize::MAX - e.2 && e.3 <= usize::MAX - e.4) {
            assert(!entry_sound(entries@[i as int], rows));
            return false;
        }
        i = i + 1;
    }
    true
}

impl Filter {
    /// Parses the bytes of a filter file: `None` stands for a file that does
    /// not exist, which gives no filter and no error. Bytes that do not parse,
    /// or whose index cannot be queried safely, are an invalid filter.
    pub fn load(filter_bytes: Option<&[u8]>) -> (r: Result<Option<Filter>, SecurityStateError>)
        ensures
            match filter_bytes {
                None => r matches Ok(None),
                Some(b) => if usable_filter(b@) {
                    r matches Ok(Some(f)) && f@ == b@
                } else {
                    r == Err::<Option<Filter>, SecurityStateError>(
                        SecurityStateError::InvalidFilter,
                    )
                },
            },
    {
        match filter_bytes {
            None => Ok(None),
            Some(b) => match parse_filter(b) {
                Some(f) => if layout_is_sound(&f) {
                    Ok(Some(f))
                } else {
                    Err(SecurityStateError::InvalidFilter)
                },
                None => Err(SecurityStateError::InvalidFilter),
            },
        }
    }

    /// An estimate of the memory this filter holds.
    pub fn approximate_size(&self) -> usize {
        clubcard_approximate_size(self)
    }

    /// The state this filter reports for the certificate with the given issuer
    /// key hash and serial number. Timestamps whose log id is not 32 bytes long
    /// are ignored; when fewer than `min_coverage` of the others fall within
    /// the filter's coverage, the certificate is not covered; else the state
    /// is the filter's verdict.
    pub fn has(
        &self,
        issuer_hash: &[u8],
        serial: &[u8],
        timestamps: &[CRLiteTimestamp],
        min_coverage: u64,
    ) -> (r: i16)
        requires
            usable_filter(self@),
            issuer_hash@.len() == 32,
        ensures
            r == filter_state(self@, issuer_hash@, serial@, logs_of(timestamps@), min_coverage),
            is_filter_state(r),
            timestamps@.len() < min_coverage ==> r == STATE_NOT_COVERED,
    {
        let ghost all = logs_of(timestamps@);
        let mut usable: Vec<CRLiteTimestamp> = Vec::new();
        let n = timestamps.len();
        let mut i: usize = 0;
        while i < n
            invariant
                n == timestamps@.len(),
                all == logs_of(timestamps@),
                i <= n,
                logs_of(usable@) == usable_logs(all.subrange(0, i as int)),
                forall|j: int| 0 <= j < usable@.len() ==> #[trigger] usable@[j].log_id@.len() == 32,
            decreases n - i,
        {
            let t = &timestamps[i];
            assert(all.subrange(0, i + 1).drop_last() =~= all.subrange(0, i as int));
            assert(all.subrange(0, i + 1).last() == all[i as int]);
            if t.log_id.len() == 32 {
                let ghost before = usable@;
                usable.push(CRLiteTimestamp { log_id: copy_bytes(t.log_id.as_slice()), timestamp: t.timestamp });
                assert(logs_of(usable@) =~= logs_of(before).push(all[i as int]));
            }
            i = i + 1;
        }
        assert(all.subrange(0, n as int) =~= all);
        let ghost logs = logs_of(usable@);
        let mut covered: u64 = 0;
        let m = usable.len();
        let mut k: usize = 0;
        while k < m
            invariant
                m == usable@.len(),
                logs == logs_of(usable@),
                k <= m,
                covered <= k,
                covered == covered_count(self@, issuer_hash@, serial@, logs.subrange(0, k as int)),
                issuer_hash@.len() == 32,
                forall|j: int| 0 <= j < usable@.len() ==> #[trigger] usable@[j].log_id@.len() == 32,
            decreases m - k,
        {
            let t = &usable[k];
            assert(logs.subrange(0, k + 1).drop_last() =~= logs.subrange(0, k as int));
            assert(logs.subrange(0, k + 1).last() == (t.log_id@, t.timestamp));
            if timestamp_in_universe(self, issuer_hash, serial, t.log_id.as_slice(), t.timestamp) {
                covered = covered + 1;
            }
            k = k + 1;
        }
        assert(logs.subrange(0, m as int) =~= logs);
        proof {
            lemma_coverage_floor(self@, issuer_hash@, serial@, all, min_coverage);
        }
        if covered < min_coverage {
            return STATE_NOT_COVERED;
        }
        state_of_status(clubcard_contains(self, issuer_hash, serial, &usable))
    }
}

/// Index of the last `.` of `name`, or -1 where there is none.
pub open spec fn last_dot(name: Seq<u8>) -> int
    decreases name.len(),
{
    if name.len() == 0 {
        -1
    } else if name.last() == 46u8 {
        name.len() - 1
    } else {
        last_dot(name.drop_last())
    }
}

/// The extension of a file name: what follows its last `.`, unless the name
/// has no `.` or its only `.` comes first.
pub open spec fn extension_of(name: Seq<u8>) -> Option<Seq<u8>> {
    let d = last_dot(name);
    if d <= 0 {
        None
    } else {
        Some(name.subrange(d + 1, name.len() as int))
    }
}

/// The extension of a file name.
pub fn file_extension(name: &[u8]) -> (r: Option<Vec<u8>>)
    ensures
        match r {
            Some(e) => extension_of(name@) == Some(e@),
            None => extension_of(name@) is None,
        },
{
    let n = name.len();
    let mut i: usize = n;
    assert(name@.subrange(0, n as int) =~= name@);
    while i > 0
        invariant
            n == name@.len(),
            i <= n,
            last_dot(name@) == last_dot(name@.subrange(0, i as int)),
        decreases i,
    {
        let ghost pre = name@.subrange(0, i as int);
        assert(pre.drop_last() =~= name@.subrange(0, i - 1));
        if name[i - 1] == 46u8 {
            if i == 1 {
                return None;
            }
            return Some(copy_range(name, i, n));
        }
        i = i - 1;
    }
    assert(name@.subrange(0, 0) =~= Seq::<u8>::empty());
    None
}

/// Whether `e` is the extension `delta`.
pub open spec fn is_delta_extension(e: Seq<u8>) -> bool {
    e == seq![100u8, 101u8, 108u8, 116u8, 97u8]
}

/// Whether `e` is one of the extensions of filter data: `coverage`, `delta`,
/// `enrollment`, `filter` or `stash`.
pub open spec fn is_filter_data_extension(e: Seq<u8>) -> bool {
    ||| e == seq![99u8, 111u8, 118u8, 101u8, 114u8, 97u8, 103u8, 101u8]
    ||| is_delta_extension(e)
    ||| e == seq![101u8, 110u8, 114u8, 111u8, 108u8, 108u8, 109u8, 101u8, 110u8, 116u8]
    ||| e == seq![102u8, 105u8, 108u8, 116u8, 101u8, 114u8]
    ||| e == seq![115u8, 116u8, 97u8, 115u8, 104u8]
}

/// Whether a file of the store directory holds a delta filter: its extension
/// is exactly `delta`.
pub fn is_delta_file(name: &[u8]) -> (r: bool)
    ensures
        r == (extension_of(name@) matches Some(e) && is_delta_extension(e)),
{
    match file_extension(name) {
        Some(e) => {
            let delta: Vec<u8> = vec![100u8, 101u8, 108u8, 116u8, 97u8];
            let r = crate::kv::bytes_eq(e.as_slice(), delta.as_slice());
            assert(delta@ =~= seq![100u8, 101u8, 108u8, 116u8, 97u8]);
            r
        },
        None => false,
    }
}

/// Whether a file of the store directory is removed when a full filter is
/// installed: filter data of this or an earlier format.
pub fn is_replaced_by_full_filter(name: &[u8]) -> (r: bool)
    ensures
        r == (extension_of(name@) matches Some(e) && is_filter_data_extension(e)),
{
    match file_extension(name) {
        Some(e) => {
            let coverage: Vec<u8> = vec![99u8, 111u8, 118u8, 101u8, 114u8, 97u8, 103u8, 101u8];
            let delta: Vec<u8> = vec![100u8, 101u8, 108u8, 116u8, 97u8];
            let enrollment: Vec<u8> = vec![
                101u8, 110u8, 114u8, 111u8, 108u8, 108u8, 109u8, 101u8, 110u8, 116u8,
            ];
            let filter: Vec<u8> = vec![102u8, 105u8, 108u8, 116u8, 101u8, 114u8];
            let stash: Vec<u8> = vec![115u8, 116u8, 97u8, 115u8, 104u8];
            assert(coverage@ =~= seq![99u8, 111u8, 118u8, 101u8, 114u8, 97u8, 103u8, 101u8]);
            assert(delta@ =~= seq![100u8, 101u8, 108u8, 116u8, 97u8]);
            assert(enrollment@ =~= seq![
                101u8, 110u8, 114u8, 111u8, 108u8, 108u8, 109u8, 101u8, 110u8, 116u8,
            ]);
            assert(filter@ =~= seq![102u8, 105u8, 108u8, 116u8, 101u8, 114u8]);
            assert(stash@ =~= seq![115u8, 116u8, 97u8, 115u8, 104u8]);
            let s = e.as_slice();
            crate::kv::bytes_eq(s, coverage.as_slice()) || crate::kv::bytes_eq(s, delta.as_slice())
                || crate::kv::bytes_eq(s, enrollment.as_slice()) || crate::kv::bytes_eq(
                s,
                filter.as_slice(),
            ) || crate::kv::bytes_eq(s, stash.as_slice())
        },
        None => false,
    }
}

/// Installing a full filter removes every delta file.
pub proof fn lemma_full_install_removes_deltas(name: Seq<u8>)
    ensures
        (extension_of(name) matches Some(e) && is_delta_extension(e)) ==> (extension_of(
            name,
        ) matches Some(e) && is_filter_data_extension(e)),
{
}

} // verus!
