//! The specification index, and its reconciliation against the filesystem.
//!
//! [`SeriesSpecMap`] holds the declared universe of series, grouped into
//! buckets by `(DataType, Country)` — the pair that names one on-disk
//! directory — with a reverse index from series identifier to bucket key.
//! Buckets are kept in a canonical total order over their keys, and each
//! bucket preserves the order in which the specification declared its
//! series. The reconciliation functions compare the index against directory
//! listings handed in by the caller and report drift; they never touch the
//! filesystem and never delete anything.

use vstd::prelude::*;
use crate::countries::Country;
use crate::error::Error;
use crate::file_resources::{listing_has_file, Resources};
use crate::primitives::{stem_of, DataType, SeriesId};
use crate::series_spec::{SeriesRec, SeriesSpec};
use crate::text::str_eq;

verus! {

/// The mathematical value of one bucket: its key and its member records in
/// declaration order.
#[verifier::ext_equal]
pub struct BucketRec {
    pub key: (DataType, Country),
    pub seriess: Seq<SeriesRec>,
}

/// One bucket of the index: the series declared for one data type and
/// country, in declaration order.
#[derive(Debug)]
pub struct Bucket {
    pub key: (DataType, Country),
    pub seriess: Vec<SeriesSpec>,
}

impl View for Bucket {
    type V = BucketRec;

    open spec fn view(&self) -> BucketRec {
        BucketRec {
            key: self.key,
            seriess: Seq::new(self.seriess@.len(), |i: int| self.seriess@[i]@),
        }
    }
}

/// One entry of the reverse index: an identifier and the key of the bucket
/// that holds it.
#[derive(Debug)]
pub struct RevEntry {
    pub series_id: SeriesId,
    pub key: (DataType, Country),
}

impl View for RevEntry {
    type V = (Seq<char>, (DataType, Country));

    open spec fn view(&self) -> (Seq<char>, (DataType, Country)) {
        (self.series_id@, self.key)
    }
}

/// The canonical position of a bucket key in the total order over keys.
pub open spec fn key_rank(k: (DataType, Country)) -> int {
    k.0.rank_of() * 32 + k.1.rank_of()
}

/// Equal ranks mean equal keys.
pub proof fn lemma_key_rank_injective(a: (DataType, Country), b: (DataType, Country))
    ensures
        (key_rank(a) == key_rank(b)) == (a == b),
{
    assert(0 <= a.1.rank_of() < 32 && 0 <= b.1.rank_of() < 32);
    assert(0 <= a.0.rank_of() < 3 && 0 <= b.0.rank_of() < 3);
    if key_rank(a) == key_rank(b) {
        assert(a.0.rank_of() == b.0.rank_of() && a.1.rank_of() == b.1.rank_of());
        assert(a.0 == b.0);
        assert(a.1 == b.1);
        assert(a == b);
    }
}

/// Buckets stand in strictly increasing key order.
pub open spec fn buckets_sorted(bs: Seq<BucketRec>) -> bool {
    forall|i: int, j: int|
        0 <= i < j < bs.len() ==> key_rank(#[trigger] bs[i].key) < key_rank(#[trigger] bs[j].key)
}

/// Every bucket holds at least one series.
pub open spec fn buckets_nonempty(bs: Seq<BucketRec>) -> bool {
    forall|i: int| 0 <= i < bs.len() ==> (#[trigger] bs[i]).seriess.len() > 0
}

/// No identifier appears at two positions of the index.
#[verifier::opaque]
pub open spec fn ids_distinct(bs: Seq<BucketRec>) -> bool {
    forall|i: int, p: int, j: int, q: int|
        #![trigger bs[i].seriess[p], bs[j].seriess[q]]
        0 <= i < bs.len() && 0 <= p < bs[i].seriess.len() && 0 <= j < bs.len() && 0 <= q
            < bs[j].seriess.len() && (i != j || p != q) ==> bs[i].seriess[p].series_id
            != bs[j].seriess[q].series_id
}

/// Some bucket member carries the identifier.
pub open spec fn model_contains_id(bs: Seq<BucketRec>, id: Seq<char>) -> bool {
    exists|i: int, p: int|
        0 <= i < bs.len() && 0 <= p < bs[i].seriess.len() && (#[trigger] bs[i].seriess[p]).series_id
            == id
}

/// Some bucket has the key.
pub open spec fn has_key(bs: Seq<BucketRec>, k: (DataType, Country)) -> bool {
    exists|i: int| 0 <= i < bs.len() && (#[trigger] bs[i]).key == k
}

/// The first record with the identifier in one bucket, if any.
pub open spec fn bucket_find(ss: Seq<SeriesRec>, id: Seq<char>) -> Option<SeriesRec>
    decreases ss.len(),
{
    if ss.len() == 0 {
        None
    } else if ss[0].series_id == id {
        Some(ss[0])
    } else {
        bucket_find(ss.drop_first(), id)
    }
}

/// The record with the identifier, scanning buckets in order.
pub open spec fn model_lookup(bs: Seq<BucketRec>, id: Seq<char>) -> Option<SeriesRec>
    decreases bs.len(),
{
    if bs.len() == 0 {
        None
    } else {
        match bucket_find(bs[0].seriess, id) {
            Some(s) => Some(s),
            None => model_lookup(bs.drop_first(), id),
        }
    }
}

proof fn lemma_bucket_find_none(ss: Seq<SeriesRec>, id: Seq<char>)
    requires
        forall|q: int| 0 <= q < ss.len() ==> (#[trigger] ss[q]).series_id != id,
    ensures
        bucket_find(ss, id) is None,
    decreases ss.len(),
{
    if ss.len() > 0 {
        assert(ss[0].series_id != id);
        assert forall|q: int| 0 <= q < ss.drop_first().len() implies (#[trigger] ss.drop_first()[q]).series_id
            != id by {
            assert(ss.drop_first()[q] == ss[q + 1]);
        }
        lemma_bucket_find_none(ss.drop_first(), id);
    }
}

proof fn lemma_bucket_find_at(ss: Seq<SeriesRec>, p: int)
    requires
        0 <= p < ss.len(),
        forall|q: int| 0 <= q < p ==> (#[trigger] ss[q]).series_id != ss[p].series_id,
    ensures
        bucket_find(ss, ss[p].series_id) == Some(ss[p]),
    decreases p,
{
    if p > 0 {
        assert(ss[0].series_id != ss[p].series_id);
        let rest = ss.drop_first();
        assert forall|q: int| 0 <= q < p - 1 implies (#[trigger] rest[q]).series_id != rest[p
            - 1].series_id by {
            assert(rest[q] == ss[q + 1] && rest[p - 1] == ss[p]);
        }
        assert(rest[p - 1] == ss[p]);
        lemma_bucket_find_at(rest, p - 1);
    }
}

/// When the buckets before `i` are free of `id` and bucket `i` finds `s`,
/// the whole lookup finds `s`.
proof fn lemma_lookup_through(bs: Seq<BucketRec>, i: int, id: Seq<char>, s: SeriesRec)
    requires
        0 <= i < bs.len(),
        forall|j: int, q: int|
            0 <= j < i && 0 <= q < bs[j].seriess.len() ==> (#[trigger] bs[j].seriess[q]).series_id
                != id,
        bucket_find(bs[i].seriess, id) == Some(s),
    ensures
        model_lookup(bs, id) == Some(s),
    decreases i,
{
    if i == 0 {
    } else {
        assert forall|q: int| 0 <= q < bs[0].seriess.len() implies (#[trigger] bs[0].seriess[q]).series_id
            != id by {}
        lemma_bucket_find_none(bs[0].seriess, id);
        let rest = bs.drop_first();
        assert forall|j: int, q: int|
            0 <= j < i - 1 && 0 <= q < rest[j].seriess.len() implies (#[trigger] rest[j].seriess[q]).series_id
            != id by {
            assert(rest[j] == bs[j + 1]);
        }
        assert(rest[i - 1] == bs[i]);
        lemma_lookup_through(rest, i - 1, id, s);
    }
}

/// An identifier held at position `(i, p)` of a distinct index is found
/// there, and nowhere else.
pub proof fn lemma_lookup_found(bs: Seq<BucketRec>, i: int, p: int)
    requires
        ids_distinct(bs),
        0 <= i < bs.len(),
        0 <= p < bs[i].seriess.len(),
    ensures
        model_lookup(bs, bs[i].seriess[p].series_id) == Some(bs[i].seriess[p]),
{
    reveal(ids_distinct);
    let id = bs[i].seriess[p].series_id;
    assert forall|q: int| 0 <= q < p implies (#[trigger] bs[i].seriess[q]).series_id != id by {}
    lemma_bucket_find_at(bs[i].seriess, p);
    assert forall|j: int, q: int|
        0 <= j < i && 0 <= q < bs[j].seriess.len() implies (#[trigger] bs[j].seriess[q]).series_id
        != id by {}
    lemma_lookup_through(bs, i, id, bs[i].seriess[p]);
}

/// No identifier appears twice in the reverse index.
pub open spec fn rev_ids_distinct(rev: Seq<(Seq<char>, (DataType, Country))>) -> bool {
    forall|m: int, n: int|
        0 <= m < n < rev.len() ==> (#[trigger] rev[m]).0 != (#[trigger] rev[n]).0
}

/// Some bucket with key `e.1` holds the identifier `e.0`.
pub open spec fn rev_entry_backed(bs: Seq<BucketRec>, e: (Seq<char>, (DataType, Country))) -> bool {
    exists|i: int, p: int|
        0 <= i < bs.len() && 0 <= p < bs[i].seriess.len() && (#[trigger] bs[i].seriess[p]).series_id
            == e.0 && bs[i].key == e.1
}

/// The reverse index holds the pair `(id, k)`.
pub open spec fn rev_holds(
    rev: Seq<(Seq<char>, (DataType, Country))>,
    id: Seq<char>,
    k: (DataType, Country),
) -> bool {
    exists|m: int| 0 <= m < rev.len() && #[trigger] rev[m] == (id, k)
}

/// Both directions of reverse-index consistency: every reverse entry names a
/// bucket that holds its identifier, and every bucket member stands in the
/// reverse index under its bucket's key.
#[verifier::opaque]
pub open spec fn rev_consistent(
    bs: Seq<BucketRec>,
    rev: Seq<(Seq<char>, (DataType, Country))>,
) -> bool {
    &&& forall|m: int| 0 <= m < rev.len() ==> rev_entry_backed(bs, #[trigger] rev[m])
    &&& forall|i: int, p: int|
        0 <= i < bs.len() && 0 <= p < bs[i].seriess.len() ==> rev_holds(
            rev,
            (#[trigger] bs[i].seriess[p]).series_id,
            bs[i].key,
        )
}

/// The dual-indexed specification index: buckets in canonical key order,
/// each preserving declaration order, plus the reverse index.
#[derive(Debug)]
pub struct SeriesSpecMap {
    pub map: Vec<Bucket>,
    pub reverse: Vec<RevEntry>,
}

impl View for SeriesSpecMap {
    type V = Seq<BucketRec>;

    open spec fn view(&self) -> Seq<BucketRec> {
        Seq::new(self.map@.len(), |i: int| self.map@[i]@)
    }
}

impl SeriesSpecMap {
    /// The reverse index as pairs of identifier and bucket key.
    pub open spec fn rev_view(&self) -> Seq<(Seq<char>, (DataType, Country))> {
        Seq::new(self.reverse@.len(), |i: int| self.reverse@[i]@)
    }

    /// The index's invariant: buckets sorted and nonempty, identifiers
    /// unique, and the two indexes mutually consistent.
    pub open spec fn wf(&self) -> bool {
        &&& buckets_sorted(self@)
        &&& buckets_nonempty(self@)
        &&& ids_distinct(self@)
        &&& rev_ids_distinct(self.rev_view())
        &&& rev_consistent(self@, self.rev_view())
    }

    /// An empty index.
    pub fn new() -> (r: Self)
        ensures
            r.wf(),
            r@.len() == 0,
            r.rev_view().len() == 0,
    {
        let r = SeriesSpecMap { map: Vec::new(), reverse: Vec::new() };
        proof {
            reveal(ids_distinct);
            reveal(rev_consistent);
            assert(ids_distinct(r@));
            assert(rev_consistent(r@, r.rev_view()));
        }
        r
    }

    /// Position of the identifier in the reverse index, if present.
    fn rev_find(&self, series_id: &SeriesId) -> (r: Option<usize>)
        ensures
            match r {
                Some(m) => m < self.rev_view().len() && self.rev_view()[m as int].0 == series_id@,
                None => forall|m: int|
                    0 <= m < self.rev_view().len() ==> (#[trigger] self.rev_view()[m]).0
                        != series_id@,
            },
    {
        let mut m: usize = 0;
        while m < self.reverse.len()
            invariant
                m <= self.reverse@.len(),
                forall|n: int|
                    0 <= n < m ==> (#[trigger] self.rev_view()[n]).0 != series_id@,
            decreases self.reverse@.len() - m,
        {
            if str_eq(self.reverse[m].series_id.as_str(), series_id.as_str()) {
                proof {
                    assert(self.rev_view()[m as int].0 == self.reverse@[m as int].series_id@);
                }
                return Some(m);
            }
            proof {
                assert(self.rev_view()[m as int].0 == self.reverse@[m as int].series_id@);
            }
            m = m + 1;
        }
        None
    }

    /// Position of the bucket with the given key, if present.
    fn bucket_index_of_key(&self, k: (DataType, Country)) -> (r: Option<usize>)
        ensures
            match r {
                Some(i) => i < self@.len() && self@[i as int].key == k,
                None => !has_key(self@, k),
            },
    {
        let mut i: usize = 0;
        while i < self.map.len()
            invariant
                i <= self.map@.len(),
                forall|j: int| 0 <= j < i ==> (#[trigger] self@[j]).key != k,
            decreases self.map@.len() - i,
        {
            let b = &self.map[i];
            if b.key.0 == k.0 && b.key.1 == k.1 {
                proof {
                    assert(self@[i as int].key == self.map@[i as int].key);
                }
                return Some(i);
            }
            proof {
                assert(self@[i as int].key == self.map@[i as int].key);
            }
            i = i + 1;
        }
        proof {
            if has_key(self@, k) {
                let i = choose|i: int| 0 <= i < self@.len() && (#[trigger] self@[i]).key == k;
                assert(self@[i].key != k);
            }
        }
        None
    }

    /// A record by identifier, through the reverse index and then the owning
    /// bucket — never a scan of every bucket.
    pub fn get_series_spec(&self, series_id: &SeriesId) -> (r: Option<SeriesSpec>)
        requires
            self.wf(),
        ensures
            match r {
                Some(s) => {
                    &&& model_contains_id(self@, series_id@)
                    &&& model_lookup(self@, series_id@) == Some(s@)
                },
                None => !model_contains_id(self@, series_id@),
            },
    {
        match self.rev_find(series_id) {
            None => {
                proof {
                    reveal(rev_consistent);
                    if model_contains_id(self@, series_id@) {
                        let (i, p) = choose|i: int, p: int|
                            0 <= i < self@.len() && 0 <= p < self@[i].seriess.len() && (
                            #[trigger] self@[i].seriess[p]).series_id == series_id@;
                        assert(rev_holds(self.rev_view(), series_id@, self@[i].key));
                        let m = choose|m: int|
                            0 <= m < self.rev_view().len() && #[trigger] self.rev_view()[m] == (
                            series_id@,
                            self@[i].key,
                            );
                        assert(self.rev_view()[m].0 != series_id@);
                    }
                }
                None
            },
            Some(m) => {
                let key = self.reverse[m].key;
                proof {
                    reveal(rev_consistent);
                    assert(self.rev_view()[m as int] == (
                        self.reverse@[m as int].series_id@,
                        self.reverse@[m as int].key,
                    ));
                    assert(rev_entry_backed(self@, self.rev_view()[m as int]));
                }
                match self.bucket_index_of_key(key) {
                    None => {
                        proof {
                            let (i0, p0) = choose|i0: int, p0: int|
                                0 <= i0 < self@.len() && 0 <= p0 < self@[i0].seriess.len() && (
                                #[trigger] self@[i0].seriess[p0]).series_id == series_id@
                                    && self@[i0].key == key;
                            assert(has_key(self@, key));
                            assert(false);
                        }
                        None
                    },
                    Some(i) => {
                        let b = &self.map[i];
                        let mut p: usize = 0;
                        proof {
                            assert(b@ == self@[i as int]);
                        }
                        while p < b.seriess.len()
                            invariant
                                b@ == self@[i as int],
                                i < self@.len(),
                                self@[i as int].key == key,
                                p <= b.seriess@.len(),
                                self.wf(),
                                rev_entry_backed(self@, (series_id@, key)),
                                forall|q: int|
                                    0 <= q < p ==> (#[trigger] b@.seriess[q]).series_id
                                        != series_id@,
                            decreases b.seriess@.len() - p,
                        {
                            if str_eq(b.seriess[p].series_id.as_str(), series_id.as_str()) {
                                proof {
                                    assert(b@.seriess[p as int] == b.seriess@[p as int]@);
                                    lemma_lookup_found(self@, i as int, p as int);
                                }
                                return Some(b.seriess[p].clone());
                            }
                            proof {
                                assert(b@.seriess[p as int] == b.seriess@[p as int]@);
                            }
                            p = p + 1;
                        }
                        proof {
                            let (i0, p0) = choose|i0: int, p0: int|
                                0 <= i0 < self@.len() && 0 <= p0 < self@[i0].seriess.len() && (
                                #[trigger] self@[i0].seriess[p0]).series_id == series_id@
                                    && self@[i0].key == key;
                            if i0 != i {
                                lemma_key_rank_injective(self@[i0].key, self@[i as int].key);
                            }
                            assert(i0 == i);
                            assert(b@.seriess[p0].series_id != series_id@);
                            assert(false);
                        }
                        None
                    },
                }
            },
        }
    }
}

/// One bucket's records with every record carrying `s.series_id` replaced by
/// `s`.
pub open spec fn replace_in(ss: Seq<SeriesRec>, s: SeriesRec) -> Seq<SeriesRec> {
    ss.map_values(|t: SeriesRec| if t.series_id == s.series_id {
        s
    } else {
        t
    })
}

/// Where a bucket of the given rank belongs: after every bucket of smaller
/// rank.
pub open spec fn insert_pos(bs: Seq<BucketRec>, rank: int) -> int
    decreases bs.len(),
{
    if bs.len() == 0 {
        0
    } else if key_rank(bs[0].key) < rank {
        1 + insert_pos(bs.drop_first(), rank)
    } else {
        0
    }
}

proof fn lemma_insert_pos_at(bs: Seq<BucketRec>, rank: int, pos: int)
    requires
        0 <= pos <= bs.len(),
        forall|j: int| 0 <= j < pos ==> key_rank((#[trigger] bs[j]).key) < rank,
        pos == bs.len() || key_rank(bs[pos].key) >= rank,
    ensures
        insert_pos(bs, rank) == pos,
    decreases pos,
{
    if pos == 0 {
    } else {
        let rest = bs.drop_first();
        assert forall|j: int| 0 <= j < pos - 1 implies key_rank((#[trigger] rest[j]).key)
            < rank by {
            assert(rest[j] == bs[j + 1]);
        }
        if pos - 1 < rest.len() {
            assert(rest[pos - 1] == bs[pos]);
        }
        lemma_insert_pos_at(rest, rank, pos - 1);
    }
}

/// In a sorted index no key appears twice.
pub proof fn lemma_sorted_keys_distinct(bs: Seq<BucketRec>, i: int, j: int)
    requires
        buckets_sorted(bs),
        0 <= i < bs.len(),
        0 <= j < bs.len(),
        i != j,
    ensures
        bs[i].key != bs[j].key,
{
    lemma_key_rank_injective(bs[i].key, bs[j].key);
}

/// The index after one record is folded in: an already-present identifier is
/// replaced in place, a new identifier joins its key's bucket at the end, and
/// a new key opens a bucket at its canonical position.
pub open spec fn model_insert(bs: Seq<BucketRec>, s: SeriesRec) -> Seq<BucketRec> {
    let k = (s.data_type, s.country);
    if model_contains_id(bs, s.series_id) {
        bs.map_values(|b: BucketRec| BucketRec { key: b.key, seriess: replace_in(b.seriess, s) })
    } else if has_key(bs, k) {
        bs.map_values(
            |b: BucketRec|
                if b.key == k {
                    BucketRec { key: b.key, seriess: b.seriess.push(s) }
                } else {
                    b
                },
        )
    } else {
        bs.insert(insert_pos(bs, key_rank(k)), BucketRec { key: k, seriess: seq![s] })
    }
}

/// The reverse index after one record is folded in: unchanged for a
/// replacement, extended by the new pair otherwise.
pub open spec fn model_rev_insert(
    rev: Seq<(Seq<char>, (DataType, Country))>,
    bs: Seq<BucketRec>,
    s: SeriesRec,
) -> Seq<(Seq<char>, (DataType, Country))> {
    if model_contains_id(bs, s.series_id) {
        rev
    } else {
        rev.push((s.series_id, (s.data_type, s.country)))
    }
}

/// Executable form of `key_rank`.
fn key_rank_exec(k: (DataType, Country)) -> (r: u16)
    ensures
        r as int == key_rank(k),
{
    (k.0.rank() as u16) * 32 + (k.1.rank() as u16)
}

impl SeriesSpecMap {
    /// A position holding the identifier, if any.
    fn find_position(&self, series_id: &SeriesId) -> (r: Option<(usize, usize)>)
        ensures
            match r {
                Some(ip) => {
                    &&& ip.0 < self@.len()
                    &&& ip.1 < self@[ip.0 as int].seriess.len()
                    &&& self@[ip.0 as int].seriess[ip.1 as int].series_id == series_id@
                },
                None => !model_contains_id(self@, series_id@),
            },
    {
        let mut i: usize = 0;
        while i < self.map.len()
            invariant
                i <= self.map@.len(),
                forall|j: int, q: int|
                    0 <= j < i && 0 <= q < self@[j].seriess.len() ==> (
                    #[trigger] self@[j].seriess[q]).series_id != series_id@,
            decreases self.map@.len() - i,
        {
            let b = &self.map[i];
            let mut p: usize = 0;
            proof {
                assert(b@ == self@[i as int]);
            }
            while p < b.seriess.len()
                invariant
                    b@ == self@[i as int],
                    i < self@.len(),
                    p <= b.seriess@.len(),
                    forall|q: int|
                        0 <= q < p ==> (#[trigger] b@.seriess[q]).series_id != series_id@,
                decreases b.seriess@.len() - p,
            {
                proof {
                    assert(b@.seriess[p as int] == b.seriess@[p as int]@);
                }
                if str_eq(b.seriess[p].series_id.as_str(), series_id.as_str()) {
                    return Some((i, p));
                }
                p = p + 1;
            }
            i = i + 1;
        }
        proof {
            if model_contains_id(self@, series_id@) {
                let (j, q) = choose|j: int, q: int|
                    0 <= j < self@.len() && 0 <= q < self@[j].seriess.len() && (
                    #[trigger] self@[j].seriess[q]).series_id == series_id@;
                assert(self@[j].seriess[q].series_id != series_id@);
            }
        }
        None
    }

    /// Folds one record into the index.
    ///
    /// Insertion is idempotent by identity: a record whose identifier is
    /// already present replaces the stored record in place — declaration
    /// order never changes as a side effect of an update — while a new
    /// identifier is appended to its bucket, opening the bucket at its
    /// canonical position if need be.
    /// Replaces the record at `(i, p)`, which already carries the
    /// identifier, in place.
    #[verifier::rlimit(50)]
    fn insert_replace(&mut self, series_spec: &SeriesSpec, i: usize, p: usize)
        requires
            old(self).wf(),
            i < old(self)@.len(),
            p < old(self)@[i as int].seriess.len(),
            old(self)@[i as int].seriess[p as int].series_id == series_spec@.series_id,
        ensures
            final(self).wf(),
            final(self)@ == model_insert(old(self)@, series_spec@),
            final(self).rev_view() == old(self).rev_view(),
    {
        let ghost bs0 = self@;
        let ghost rev0 = self.rev_view();
        let ghost s = series_spec@;
        proof {
            assert(model_contains_id(bs0, s.series_id));
        }
        proof {
            assert(model_contains_id(bs0, s.series_id));
        }
        let ghost m0 = self.map@;
        let mut b = self.map.remove(i);
        let ghost bv0 = b@;
        let _discard = b.seriess.remove(p);
        b.seriess.insert(p, series_spec.clone());
        let ghost bv1 = b@;
        self.map.insert(i, b);
        proof {
            let bs1 = self@;
            reveal(ids_distinct);
            reveal(rev_consistent);
            // the updated bucket: same records, the one at `p`
            // replaced
            assert(bv1.key == bv0.key);
            assert(bv1.seriess.len() == bv0.seriess.len());
            assert forall|q: int| 0 <= q < bv1.seriess.len() implies bv1.seriess[q] == (
            if q == p {
                s
            } else {
                bv0.seriess[q]
            }) by {}
            // the bucket vector: same buckets, `i` replaced
            assert(self.map@.len() == m0.len());
            assert forall|j: int| 0 <= j < bs1.len() implies bs1[j] == (
            if j == i {
                bv1
            } else {
                bs0[j]
            }) by {
                assert(self.map@[j] == (if j == i {
                    self.map@[i as int]
                } else {
                    m0[j]
                }));
            }
            // pointwise identity of keys and identifiers with the old
            // index
            assert(bv0 == bs0[i as int]);
            assert(bs0[i as int].seriess[p as int].series_id == s.series_id);
            assert forall|j: int, q: int|
                0 <= j < bs1.len() && 0 <= q < bs1[j].seriess.len() implies #[trigger] bs1[j].seriess[q].series_id
                == bs0[j].seriess[q].series_id by {}
            // equality with the model
            let model = model_insert(bs0, s);
            assert forall|j: int| 0 <= j < bs1.len() implies bs1[j] =~~= model[j] by {
                assert(model[j].key == bs0[j].key);
                assert(model[j].seriess == replace_in(bs0[j].seriess, s));
                assert forall|q: int|
                    0 <= q < bs1[j].seriess.len() implies #[trigger] model[j].seriess[q]
                    == bs1[j].seriess[q] by {
                    if j != i || q != p {
                        assert(bs0[j].seriess[q].series_id != s.series_id);
                    }
                }
                assert(bs1[j].seriess =~= model[j].seriess);
            }
            assert(bs1 =~~= model);
            // the invariant carries over: keys, lengths and
            // identifiers are unchanged
            assert(buckets_sorted(bs1)) by {
                assert forall|x: int, y: int| 0 <= x < y < bs1.len() implies key_rank(
                    #[trigger] bs1[x].key,
                ) < key_rank(#[trigger] bs1[y].key) by {
                    assert(bs1[x].key == bs0[x].key && bs1[y].key == bs0[y].key);
                }
            }
            assert(buckets_nonempty(bs1));
            assert(ids_distinct(bs1)) by {
                assert forall|x: int, px: int, y: int, qy: int|
                    #![trigger bs1[x].seriess[px], bs1[y].seriess[qy]]
                    0 <= x < bs1.len() && 0 <= px < bs1[x].seriess.len() && 0 <= y
                        < bs1.len() && 0 <= qy < bs1[y].seriess.len() && (x != y || px
                        != qy) implies bs1[x].seriess[px].series_id
                    != bs1[y].seriess[qy].series_id by {
                    assert(bs1[x].seriess[px].series_id == bs0[x].seriess[px].series_id);
                    assert(bs1[y].seriess[qy].series_id == bs0[y].seriess[qy].series_id);
                }
            }
            assert(rev_consistent(bs1, rev0)) by {
                assert forall|m: int| 0 <= m < rev0.len() implies rev_entry_backed(
                    bs1,
                    #[trigger] rev0[m],
                ) by {
                    let (i0, p0) = choose|i0: int, p0: int|
                        0 <= i0 < bs0.len() && 0 <= p0 < bs0[i0].seriess.len() && (
                        #[trigger] bs0[i0].seriess[p0]).series_id == rev0[m].0
                            && bs0[i0].key == rev0[m].1;
                    assert(bs1[i0].seriess[p0].series_id == rev0[m].0 && bs1[i0].key
                        == rev0[m].1);
                }
                assert forall|x: int, px: int|
                    0 <= x < bs1.len() && 0 <= px < bs1[x].seriess.len() implies rev_holds(
                    rev0,
                    (#[trigger] bs1[x].seriess[px]).series_id,
                    bs1[x].key,
                ) by {
                    assert(bs1[x].seriess[px].series_id == bs0[x].seriess[px].series_id);
                    assert(bs1[x].key == bs0[x].key);
                }
            }
        }
    }

    /// Appends a record with a fresh identifier to the bucket at `i`, which
    /// carries the record's key.
    #[verifier::rlimit(50)]
    fn insert_append(&mut self, series_spec: &SeriesSpec, i: usize)
        requires
            old(self).wf(),
            !model_contains_id(old(self)@, series_spec@.series_id),
            i < old(self)@.len(),
            old(self)@[i as int].key == (series_spec@.data_type, series_spec@.country),
        ensures
            final(self).wf(),
            final(self)@ == model_insert(old(self)@, series_spec@),
            final(self).rev_view() == old(self).rev_view().push(
                (series_spec@.series_id, (series_spec@.data_type, series_spec@.country)),
            ),
    {
        let ghost bs0 = self@;
        let ghost rev0 = self.rev_view();
        let ghost s = series_spec@;
        let key = (series_spec.data_type, series_spec.country);
        proof {
            assert(has_key(bs0, key));
        }
        let ghost m0 = self.map@;
        let mut b = self.map.remove(i);
        let ghost bv0 = b@;
        b.seriess.push(series_spec.clone());
        let ghost bv1 = b@;
        self.map.insert(i, b);
        self.reverse.push(
            RevEntry { series_id: series_spec.series_id.clone(), key },
        );
        proof {
            let bs1 = self@;
            reveal(ids_distinct);
            reveal(rev_consistent);
            let rev1 = self.rev_view();
            assert(bv0 == bs0[i as int]);
            assert(bv1.key == bv0.key);
            assert(bv1.seriess =~= bv0.seriess.push(s)) by {
                assert(bv1.seriess.len() == bv0.seriess.len() + 1);
                assert forall|q: int| 0 <= q < bv1.seriess.len() implies #[trigger] bv1.seriess[q]
                    == bv0.seriess.push(s)[q] by {}
            }
            assert forall|j: int| 0 <= j < bs1.len() implies bs1[j] == (
            if j == i {
                bv1
            } else {
                bs0[j]
            }) by {
                assert(self.map@[j] == (if j == i {
                    self.map@[i as int]
                } else {
                    m0[j]
                }));
            }
            assert(rev1 =~= rev0.push((s.series_id, key))) by {
                assert(rev1.len() == rev0.len() + 1);
                assert forall|m: int| 0 <= m < rev1.len() implies #[trigger] rev1[m]
                    == rev0.push((s.series_id, key))[m] by {}
            }
            // equality with the model
            let model = model_insert(bs0, s);
            assert(!model_contains_id(bs0, s.series_id) && has_key(bs0, key));
            assert forall|j: int| 0 <= j < bs1.len() implies bs1[j] =~~= model[j] by {
                if j != i && bs0[j].key == key {
                    lemma_sorted_keys_distinct(bs0, j, i as int);
                }
            }
            assert(bs1 =~~= model);
            assert(rev1 == model_rev_insert(rev0, bs0, s));
            // the invariant
            assert(buckets_sorted(bs1)) by {
                assert forall|x: int, y: int|
                    0 <= x < y < bs1.len() implies key_rank(#[trigger] bs1[x].key)
                    < key_rank(#[trigger] bs1[y].key) by {
                    assert(bs1[x].key == bs0[x].key && bs1[y].key == bs0[y].key);
                }
            }
            assert(buckets_nonempty(bs1));
            assert(ids_distinct(bs1)) by {
                assert forall|x: int, px: int, y: int, qy: int|
                    #![trigger bs1[x].seriess[px], bs1[y].seriess[qy]]
                    0 <= x < bs1.len() && 0 <= px < bs1[x].seriess.len() && 0 <= y
                        < bs1.len() && 0 <= qy < bs1[y].seriess.len() && (x != y
                        || px != qy) implies bs1[x].seriess[px].series_id
                    != bs1[y].seriess[qy].series_id by {
                    if x == i && px == bv0.seriess.len() {
                        assert(bs1[x].seriess[px].series_id == s.series_id);
                        assert(bs1[y].seriess[qy].series_id == bs0[y].seriess[qy].series_id);
                        if bs0[y].seriess[qy].series_id == s.series_id {
                            assert(model_contains_id(bs0, s.series_id));
                        }
                    } else if y == i && qy == bv0.seriess.len() {
                        assert(bs1[y].seriess[qy].series_id == s.series_id);
                        assert(bs1[x].seriess[px].series_id == bs0[x].seriess[px].series_id);
                        if bs0[x].seriess[px].series_id == s.series_id {
                            assert(model_contains_id(bs0, s.series_id));
                        }
                    } else {
                        assert(bs1[x].seriess[px].series_id == bs0[x].seriess[px].series_id);
                        assert(bs1[y].seriess[qy].series_id == bs0[y].seriess[qy].series_id);
                    }
                }
            }
            assert(rev_ids_distinct(rev1)) by {
                assert forall|m: int, n: int|
                    0 <= m < n < rev1.len() implies (#[trigger] rev1[m]).0 != (
                    #[trigger] rev1[n]).0 by {
                    if n == rev0.len() {
                        assert(rev1[n].0 == s.series_id);
                        assert(rev_entry_backed(bs0, rev0[m]));
                        if rev0[m].0 == s.series_id {
                            let (i0, p0) = choose|i0: int, p0: int|
                                0 <= i0 < bs0.len() && 0 <= p0
                                    < bs0[i0].seriess.len() && (
                                #[trigger] bs0[i0].seriess[p0]).series_id
                                    == rev0[m].0 && bs0[i0].key == rev0[m].1;
                            assert(model_contains_id(bs0, s.series_id));
                        }
                    }
                }
            }
            assert(rev_consistent(bs1, rev1)) by {
                assert forall|m: int| 0 <= m < rev1.len() implies rev_entry_backed(
                    bs1,
                    #[trigger] rev1[m],
                ) by {
                    if m < rev0.len() {
                        let (i0, p0) = choose|i0: int, p0: int|
                            0 <= i0 < bs0.len() && 0 <= p0 < bs0[i0].seriess.len()
                                && (#[trigger] bs0[i0].seriess[p0]).series_id
                                == rev0[m].0 && bs0[i0].key == rev0[m].1;
                        assert(bs1[i0].seriess[p0].series_id == rev1[m].0
                            && bs1[i0].key == rev1[m].1);
                    } else {
                        assert(rev1[m] == (s.series_id, key));
                        assert(bs1[i as int].seriess[bv0.seriess.len() as int].series_id
                            == s.series_id && bs1[i as int].key == key);
                    }
                }
                assert forall|x: int, px: int|
                    0 <= x < bs1.len() && 0 <= px
                        < bs1[x].seriess.len() implies rev_holds(
                    rev1,
                    (#[trigger] bs1[x].seriess[px]).series_id,
                    bs1[x].key,
                ) by {
                    if x == i && px == bv0.seriess.len() {
                        assert(rev1[rev0.len() as int] == (s.series_id, key));
                    } else {
                        assert(bs1[x].seriess[px].series_id == bs0[x].seriess[px].series_id
                            && bs1[x].key == bs0[x].key);
                        let m = choose|m: int|
                            0 <= m < rev0.len() && #[trigger] rev0[m] == (
                            bs0[x].seriess[px].series_id,
                            bs0[x].key,
                            );
                        assert(rev1[m] == (bs1[x].seriess[px].series_id, bs1[x].key));
                    }
                }
            }
        }
    }

    /// Opens a bucket for a record whose key the index does not hold yet, at
    /// the key's canonical position.
    #[verifier::rlimit(50)]
    fn insert_new_bucket(&mut self, series_spec: &SeriesSpec)
        requires
            old(self).wf(),
            !model_contains_id(old(self)@, series_spec@.series_id),
            !has_key(old(self)@, (series_spec@.data_type, series_spec@.country)),
        ensures
            final(self).wf(),
            final(self)@ == model_insert(old(self)@, series_spec@),
            final(self).rev_view() == old(self).rev_view().push(
                (series_spec@.series_id, (series_spec@.data_type, series_spec@.country)),
            ),
    {
        let ghost bs0 = self@;
        let ghost rev0 = self.rev_view();
        let ghost s = series_spec@;
        let key = (series_spec.data_type, series_spec.country);
        let rank = key_rank_exec(key);
        let mut pos: usize = 0;
        while pos < self.map.len() && key_rank_exec(self.map[pos].key) < rank
            invariant
                self == old(self),
                pos <= self.map@.len(),
                rank as int == key_rank(key),
                forall|j: int|
                    0 <= j < pos ==> key_rank((#[trigger] self@[j]).key)
                        < rank as int,
            decreases self.map@.len() - pos,
        {
            proof {
                assert(self@[pos as int].key == self.map@[pos as int].key);
            }
            pos = pos + 1;
        }
        proof {
            assert(pos == self.map@.len() || key_rank(self@[pos as int].key)
                >= rank as int) by {
                if pos < self.map@.len() {
                    assert(self@[pos as int].key == self.map@[pos as int].key);
                }
            }
            lemma_insert_pos_at(bs0, rank as int, pos as int);
        }
        let ghost m0 = self.map@;
        let nb = Bucket { key, seriess: vec![series_spec.clone()] };
        let ghost nbv = nb@;
        self.map.insert(pos, nb);
        self.reverse.push(
            RevEntry { series_id: series_spec.series_id.clone(), key },
        );
        proof {
            let bs1 = self@;
            reveal(ids_distinct);
            reveal(rev_consistent);
            let rev1 = self.rev_view();
            assert(nbv.key == key && nbv.seriess =~= seq![s]);
            assert forall|j: int| 0 <= j < bs1.len() implies bs1[j] == (
            if j < pos {
                bs0[j]
            } else if j == pos {
                nbv
            } else {
                bs0[j - 1]
            }) by {
                assert(self.map@[j] == (if j < pos {
                    m0[j]
                } else if j == pos {
                    self.map@[pos as int]
                } else {
                    m0[j - 1]
                }));
            }
            assert(rev1 =~= rev0.push((s.series_id, key))) by {
                assert(rev1.len() == rev0.len() + 1);
                assert forall|m: int| 0 <= m < rev1.len() implies #[trigger] rev1[m]
                    == rev0.push((s.series_id, key))[m] by {}
            }
            // equality with the model
            let model = model_insert(bs0, s);
            assert(!model_contains_id(bs0, s.series_id) && !has_key(bs0, key));
            assert(model == bs0.insert(pos as int, BucketRec { key, seriess: seq![s] }));
            assert forall|j: int| 0 <= j < bs1.len() implies bs1[j] =~~= model[j] by {
                bs0.insert_ensures(pos as int, BucketRec { key, seriess: seq![s] });
            }
            assert(bs1 =~~= model);
            assert(rev1 == model_rev_insert(rev0, bs0, s));
            // the invariant
            assert(buckets_sorted(bs1)) by {
                assert forall|x: int, y: int|
                    0 <= x < y < bs1.len() implies key_rank(#[trigger] bs1[x].key)
                    < key_rank(#[trigger] bs1[y].key) by {
                    if y == pos {
                        assert(key_rank(bs1[x].key) < rank as int);
                    } else if x == pos {
                        assert(key_rank(bs1[y].key) >= rank as int);
                        assert(bs1[y].key != key) by {
                            if bs0[y - 1].key == key {
                                assert(has_key(bs0, key));
                            }
                        }
                        lemma_key_rank_injective(bs1[y].key, key);
                    } else if x < pos && y > pos {
                        assert(bs1[x].key == bs0[x].key && bs1[y].key == bs0[y
                            - 1].key);
                    }
                }
            }
            assert(buckets_nonempty(bs1));
            assert(ids_distinct(bs1)) by {
                assert forall|x: int, px: int, y: int, qy: int|
                    #![trigger bs1[x].seriess[px], bs1[y].seriess[qy]]
                    0 <= x < bs1.len() && 0 <= px < bs1[x].seriess.len() && 0 <= y
                        < bs1.len() && 0 <= qy < bs1[y].seriess.len() && (x != y
                        || px != qy) implies bs1[x].seriess[px].series_id
                    != bs1[y].seriess[qy].series_id by {
                    if x == pos {
                        assert(bs1[x].seriess[px].series_id == s.series_id);
                        if y < pos {
                            assert(bs1[y].seriess[qy] == bs0[y].seriess[qy]);
                            if bs0[y].seriess[qy].series_id == s.series_id {
                                assert(model_contains_id(bs0, s.series_id));
                            }
                        } else {
                            assert(bs1[y].seriess[qy] == bs0[y - 1].seriess[qy]);
                            if bs0[y - 1].seriess[qy].series_id == s.series_id {
                                assert(model_contains_id(bs0, s.series_id));
                            }
                        }
                    } else if y == pos {
                        assert(bs1[y].seriess[qy].series_id == s.series_id);
                        if x < pos {
                            assert(bs1[x].seriess[px] == bs0[x].seriess[px]);
                            if bs0[x].seriess[px].series_id == s.series_id {
                                assert(model_contains_id(bs0, s.series_id));
                            }
                        } else {
                            assert(bs1[x].seriess[px] == bs0[x - 1].seriess[px]);
                            if bs0[x - 1].seriess[px].series_id == s.series_id {
                                assert(model_contains_id(bs0, s.series_id));
                            }
                        }
                    } else {
                        if x < pos {
                            assert(bs1[x].seriess[px] == bs0[x].seriess[px]);
                        } else {
                            assert(bs1[x].seriess[px] == bs0[x - 1].seriess[px]);
                        }
                        if y < pos {
                            assert(bs1[y].seriess[qy] == bs0[y].seriess[qy]);
                        } else {
                            assert(bs1[y].seriess[qy] == bs0[y - 1].seriess[qy]);
                        }
                    }
                }
            }
            assert(rev_ids_distinct(rev1)) by {
                assert forall|m: int, n: int|
                    0 <= m < n < rev1.len() implies (#[trigger] rev1[m]).0 != (
                    #[trigger] rev1[n]).0 by {
                    if n == rev0.len() {
                        assert(rev1[n].0 == s.series_id);
                        assert(rev_entry_backed(bs0, rev0[m]));
                        if rev0[m].0 == s.series_id {
                            let (i0, p0) = choose|i0: int, p0: int|
                                0 <= i0 < bs0.len() && 0 <= p0
                                    < bs0[i0].seriess.len() && (
                                #[trigger] bs0[i0].seriess[p0]).series_id
                                    == rev0[m].0 && bs0[i0].key == rev0[m].1;
                            assert(model_contains_id(bs0, s.series_id));
                        }
                    }
                }
            }
            assert(rev_consistent(bs1, rev1)) by {
                assert forall|m: int| 0 <= m < rev1.len() implies rev_entry_backed(
                    bs1,
                    #[trigger] rev1[m],
                ) by {
                    if m < rev0.len() {
                        let (i0, p0) = choose|i0: int, p0: int|
                            0 <= i0 < bs0.len() && 0 <= p0 < bs0[i0].seriess.len()
                                && (#[trigger] bs0[i0].seriess[p0]).series_id
                                == rev0[m].0 && bs0[i0].key == rev0[m].1;
                        if i0 < pos {
                            assert(bs1[i0].seriess[p0].series_id == rev1[m].0
                                && bs1[i0].key == rev1[m].1);
                        } else {
                            assert(bs1[i0 + 1].seriess[p0].series_id == rev1[m].0
                                && bs1[i0 + 1].key == rev1[m].1);
                        }
                    } else {
                        assert(rev1[m] == (s.series_id, key));
                        assert(bs1[pos as int].seriess[0].series_id == s.series_id
                            && bs1[pos as int].key == key);
                    }
                }
                assert forall|x: int, px: int|
                    0 <= x < bs1.len() && 0 <= px
                        < bs1[x].seriess.len() implies rev_holds(
                    rev1,
                    (#[trigger] bs1[x].seriess[px]).series_id,
                    bs1[x].key,
                ) by {
                    if x == pos {
                        assert(bs1[x].seriess[px] == s);
                        assert(rev1[rev0.len() as int] == (s.series_id, key));
                    } else if x < pos {
                        assert(bs1[x].seriess[px] == bs0[x].seriess[px]
                            && bs1[x].key == bs0[x].key);
                        let m = choose|m: int|
                            0 <= m < rev0.len() && #[trigger] rev0[m] == (
                            bs0[x].seriess[px].series_id,
                            bs0[x].key,
                            );
                        assert(rev1[m] == (bs1[x].seriess[px].series_id, bs1[x].key));
                    } else {
                        assert(bs1[x].seriess[px] == bs0[x - 1].seriess[px]
                            && bs1[x].key == bs0[x - 1].key);
                        let m = choose|m: int|
                            0 <= m < rev0.len() && #[trigger] rev0[m] == (
                            bs0[x - 1].seriess[px].series_id,
                            bs0[x - 1].key,
                            );
                        assert(rev1[m] == (bs1[x].seriess[px].series_id, bs1[x].key));
                    }
                }
            }
        }
    }

    /// Folds one record into the index.
    ///
    /// Insertion is idempotent by identity: a record whose identifier is
    /// already present replaces the stored record in place — declaration
    /// order never changes as a side effect of an update — while a new
    /// identifier is appended to its bucket, opening the bucket at its
    /// canonical position if need be.
    pub fn insert(&mut self, series_spec: &SeriesSpec)
        requires
            old(self).wf(),
        ensures
            final(self).wf(),
            final(self)@ == model_insert(old(self)@, series_spec@),
            final(self).rev_view() == model_rev_insert(
                old(self).rev_view(),
                old(self)@,
                series_spec@,
            ),
    {
        match self.find_position(&series_spec.series_id) {
            Some((i, p)) => {
                proof {
                    assert(model_contains_id(self@, series_spec@.series_id));
                }
                self.insert_replace(series_spec, i, p);
            },
            None => {
                let key = (series_spec.data_type, series_spec.country);
                match self.bucket_index_of_key(key) {
                    Some(i) => {
                        self.insert_append(series_spec, i);
                    },
                    None => {
                        self.insert_new_bucket(series_spec);
                    },
                }
            },
        }
    }
}

/// The members of the bucket with key `k`, in declaration order; empty when
/// no such bucket exists.
pub open spec fn bucket_seq(bs: Seq<BucketRec>, k: (DataType, Country)) -> Seq<SeriesRec> {
    if has_key(bs, k) {
        bs[choose|i: int| 0 <= i < bs.len() && (#[trigger] bs[i]).key == k].seriess
    } else {
        Seq::empty()
    }
}

/// `insert_pos` always names a position inside the sequence or just past it.
proof fn lemma_insert_pos_bounds(bs: Seq<BucketRec>, rank: int)
    ensures
        0 <= insert_pos(bs, rank) <= bs.len(),
    decreases bs.len(),
{
    if bs.len() > 0 && key_rank(bs[0].key) < rank {
        lemma_insert_pos_bounds(bs.drop_first(), rank);
    }
}

/// The index after every record of `specs` is folded in, in order.
pub open spec fn model_fold(bs: Seq<BucketRec>, specs: Seq<SeriesRec>) -> Seq<BucketRec>
    decreases specs.len(),
{
    if specs.len() == 0 {
        bs
    } else {
        model_fold(model_insert(bs, specs[0]), specs.drop_first())
    }
}

proof fn lemma_fold_snoc(bs: Seq<BucketRec>, specs: Seq<SeriesRec>, x: SeriesRec)
    ensures
        model_fold(bs, specs.push(x)) == model_insert(model_fold(bs, specs), x),
    decreases specs.len(),
{
    if specs.len() == 0 {
        let m1 = model_insert(bs, x);
        assert(specs.push(x)[0] == x);
        assert(specs.push(x).drop_first() =~= Seq::<SeriesRec>::empty());
        assert(model_fold(bs, specs.push(x)) == model_fold(m1, specs.push(x).drop_first()));
        assert(model_fold(m1, specs.push(x).drop_first()) == m1);
        assert(model_fold(bs, specs) == bs);
    } else {
        assert(specs.push(x)[0] == specs[0]);
        assert(specs.push(x).drop_first() =~= specs.drop_first().push(x));
        assert(model_fold(bs, specs.push(x)) == model_fold(
            model_insert(bs, specs[0]),
            specs.drop_first().push(x),
        ));
        lemma_fold_snoc(model_insert(bs, specs[0]), specs.drop_first(), x);
        assert(model_fold(bs, specs) == model_fold(model_insert(bs, specs[0]), specs.drop_first()));
    }
}

impl SeriesSpecMap {
    /// The declared members of one directory, in declaration order.
    pub fn bucket(&self, data_type: DataType, country: Country) -> (r: Vec<SeriesSpec>)
        requires
            self.wf(),
        ensures
            Seq::new(r@.len(), |q: int| r@[q]@) == bucket_seq(self@, (data_type, country)),
    {
        let k = (data_type, country);
        match self.bucket_index_of_key(k) {
            Some(i) => {
                let b = &self.map[i];
                proof {
                    assert(b@ == self@[i as int]);
                    assert(has_key(self@, k));
                    let i0 = choose|i0: int|
                        0 <= i0 < self@.len() && (#[trigger] self@[i0]).key == k;
                    if i0 != i {
                        lemma_sorted_keys_distinct(self@, i0, i as int);
                    }
                }
                let mut v: Vec<SeriesSpec> = Vec::new();
                let mut p: usize = 0;
                while p < b.seriess.len()
                    invariant
                        b@ == self@[i as int],
                        i < self@.len(),
                        p <= b.seriess@.len(),
                        Seq::new(v@.len(), |q: int| v@[q]@) =~= b@.seriess.take(p as int),
                    decreases b.seriess@.len() - p,
                {
                    proof {
                        assert(b@.seriess[p as int] == b.seriess@[p as int]@);
                        assert(b@.seriess.take(p + 1) =~= b@.seriess.take(p as int).push(
                            b@.seriess[p as int],
                        ));
                    }
                    v.push(b.seriess[p].clone());
                    p = p + 1;
                }
                proof {
                    assert(b@.seriess.take(b@.seriess.len() as int) =~= b@.seriess);
                    assert(Seq::new(v@.len(), |q: int| v@[q]@) =~= bucket_seq(self@, k));
                }
                v
            },
            None => {
                proof {
                    assert(Seq::new(0, |q: int| SeriesRec {
                        data_type,
                        country,
                        series_id: Seq::empty(),
                    }) =~= Seq::<SeriesRec>::empty());
                }
                let v: Vec<SeriesSpec> = Vec::new();
                proof {
                    assert(Seq::new(v@.len(), |q: int| v@[q]@) =~= Seq::<SeriesRec>::empty());
                }
                v
            },
        }
    }

    /// The bucket keys in their canonical, stable total order — the order in
    /// which reconciliation walks the buckets.
    pub fn bucket_keys(&self) -> (r: Vec<(DataType, Country)>)
        ensures
            r@.len() == self@.len(),
            forall|i: int| 0 <= i < r@.len() ==> r@[i] == self@[i].key,
    {
        let mut r: Vec<(DataType, Country)> = Vec::new();
        let mut i: usize = 0;
        while i < self.map.len()
            invariant
                i <= self.map@.len(),
                r@.len() == i,
                forall|j: int| 0 <= j < i ==> r@[j] == self@[j].key,
            decreases self.map@.len() - i,
        {
            proof {
                assert(self@[i as int].key == self.map@[i as int].key);
            }
            r.push((self.map[i].key.0, self.map[i].key.1));
            i = i + 1;
        }
        r
    }

    /// The number of buckets.
    pub fn n_buckets(&self) -> (n: usize)
        ensures
            n == self@.len(),
    {
        self.map.len()
    }

    /// An index built by folding every record in, in order.
    pub fn from_specs(specs: &Vec<SeriesSpec>) -> (r: SeriesSpecMap)
        ensures
            r.wf(),
            r@ == model_fold(Seq::empty(), Seq::new(specs@.len(), |i: int| specs@[i]@)),
    {
        let ghost sv = Seq::new(specs@.len(), |i: int| specs@[i]@);
        let mut m = SeriesSpecMap::new();
        proof {
            assert(m@ =~= Seq::<BucketRec>::empty());
            assert(sv.take(0) =~= Seq::<SeriesRec>::empty());
        }
        let mut i: usize = 0;
        while i < specs.len()
            invariant
                i <= specs@.len(),
                sv == Seq::new(specs@.len(), |n: int| specs@[n]@),
                m.wf(),
                m@ == model_fold(Seq::empty(), sv.take(i as int)),
            decreases specs@.len() - i,
        {
            m.insert(&specs[i]);
            proof {
                assert(sv.take(i + 1) =~= sv.take(i as int).push(sv[i as int]));
                lemma_fold_snoc(Seq::empty(), sv.take(i as int), sv[i as int]);
                assert(specs@[i as int]@ == sv[i as int]);
            }
            i = i + 1;
        }
        proof {
            assert(sv.take(sv.len() as int) =~= sv);
        }
        m
    }
}

/// Every pair holds a record under that record's own identifier.
#[verifier::opaque]
pub open spec fn pairs_coherent(v: Seq<(SeriesId, SeriesSpec)>) -> bool {
    forall|q: int| 0 <= q < v.len() ==> (#[trigger] v[q].0)@ == v[q].1@.series_id
}

/// Every pair's record comes from the first `p` records of `ss`.
#[verifier::opaque]
pub open spec fn pairs_from_prefix(v: Seq<(SeriesId, SeriesSpec)>, ss: Seq<SeriesRec>, p: int) -> bool {
    forall|q: int|
        0 <= q < v.len() ==> exists|p0: int| 0 <= p0 < p && (#[trigger] v[q].1)@ == ss[p0]
}

/// Every one of the first `p` records of `ss` appears among the pairs.
#[verifier::opaque]
pub open spec fn prefix_covered(v: Seq<(SeriesId, SeriesSpec)>, ss: Seq<SeriesRec>, p: int) -> bool {
    forall|p0: int|
        0 <= p0 < p ==> exists|q: int| 0 <= q < v.len() && (#[trigger] ss[p0]) == v[q].1@
}

/// The pairs stand in strictly increasing identifier order.
#[verifier::opaque]
pub open spec fn pairs_sorted(v: Seq<(SeriesId, SeriesSpec)>) -> bool {
    forall|q1: int, q2: int|
        0 <= q1 < q2 < v.len() ==> crate::text::lex_lt(
            (#[trigger] v[q1].1)@.series_id,
            (#[trigger] v[q2].1)@.series_id,
        )
}

proof fn lemma_insert_step_coherent(
    out0: Seq<(SeriesId, SeriesSpec)>,
    pr: (SeriesId, SeriesSpec),
    j: int,
    out1: Seq<(SeriesId, SeriesSpec)>,
)
    requires
        0 <= j <= out0.len(),
        out1 == out0.insert(j, pr),
        pr.0@ == pr.1@.series_id,
        pairs_coherent(out0),
    ensures
        out1.len() == out0.len() + 1,
        pairs_coherent(out1),
{
    reveal(pairs_coherent);
    out0.insert_ensures(j, pr);
    assert forall|q: int| 0 <= q < out1.len() implies (#[trigger] out1[q].0)@
        == out1[q].1@.series_id by {
        if q < j {
            assert(out1[q] == out0[q]);
        } else if q > j {
            assert(out1[q] == out0[q - 1]);
        }
    }
}

proof fn lemma_insert_step_members(
    out0: Seq<(SeriesId, SeriesSpec)>,
    pr: (SeriesId, SeriesSpec),
    j: int,
    out1: Seq<(SeriesId, SeriesSpec)>,
    ss: Seq<SeriesRec>,
    p: int,
)
    requires
        0 <= j <= out0.len(),
        out1 == out0.insert(j, pr),
        0 <= p < ss.len(),
        pr.1@ == ss[p],
        pairs_from_prefix(out0, ss, p),
        prefix_covered(out0, ss, p),
    ensures
        pairs_from_prefix(out1, ss, p + 1),
        prefix_covered(out1, ss, p + 1),
{
    reveal(pairs_from_prefix);
    reveal(prefix_covered);
    out0.insert_ensures(j, pr);
    assert forall|q: int| 0 <= q < out1.len() implies exists|p0: int|
        0 <= p0 < p + 1 && (#[trigger] out1[q].1)@ == ss[p0] by {
        if q < j {
            assert(out1[q] == out0[q]);
            let p0 = choose|p0: int| 0 <= p0 < p && (#[trigger] out0[q].1)@ == ss[p0];
            assert(out1[q].1@ == ss[p0]);
        } else if q > j {
            assert(out1[q] == out0[q - 1]);
            let p0 = choose|p0: int| 0 <= p0 < p && (#[trigger] out0[q - 1].1)@ == ss[p0];
            assert(out1[q].1@ == ss[p0]);
        } else {
            assert(out1[q].1@ == ss[p]);
        }
    }
    assert forall|p0: int| 0 <= p0 < p + 1 implies exists|q: int|
        0 <= q < out1.len() && (#[trigger] ss[p0]) == out1[q].1@ by {
        if p0 < p {
            let q = choose|q: int| 0 <= q < out0.len() && (#[trigger] ss[p0]) == out0[q].1@;
            if q < j {
                assert(ss[p0] == out1[q].1@);
            } else {
                assert(ss[p0] == out1[q + 1].1@);
            }
        } else {
            assert(ss[p0] == out1[j].1@);
        }
    }
}

proof fn lemma_insert_step_sorted(
    out0: Seq<(SeriesId, SeriesSpec)>,
    pr: (SeriesId, SeriesSpec),
    j: int,
    out1: Seq<(SeriesId, SeriesSpec)>,
)
    requires
        0 <= j <= out0.len(),
        out1 == out0.insert(j, pr),
        pairs_sorted(out0),
        forall|a: int|
            0 <= a < j ==> crate::text::lex_lt((#[trigger] out0[a].1)@.series_id, pr.1@.series_id),
        forall|b: int|
            j <= b < out0.len() ==> crate::text::lex_lt(
                pr.1@.series_id,
                (#[trigger] out0[b].1)@.series_id,
            ),
    ensures
        pairs_sorted(out1),
{
    reveal(pairs_sorted);
    out0.insert_ensures(j, pr);
    assert forall|q1: int, q2: int| 0 <= q1 < q2 < out1.len() implies crate::text::lex_lt(
        (#[trigger] out1[q1].1)@.series_id,
        (#[trigger] out1[q2].1)@.series_id,
    ) by {
        if q1 < j {
            assert(out1[q1] == out0[q1]);
        } else if q1 > j {
            assert(out1[q1] == out0[q1 - 1]);
        }
        if q2 < j {
            assert(out1[q2] == out0[q2]);
        } else if q2 > j {
            assert(out1[q2] == out0[q2 - 1]);
        }
    }
}

/// A record not yet placed carries an identifier no placed pair has.
proof fn lemma_fresh_id_differs(out: Seq<(SeriesId, SeriesSpec)>, ss: Seq<SeriesRec>, p: int)
    requires
        forall|p1: int, p2: int|
            0 <= p1 < p2 < ss.len() ==> (#[trigger] ss[p1]).series_id != (
            #[trigger] ss[p2]).series_id,
        0 <= p < ss.len(),
        pairs_from_prefix(out, ss, p),
    ensures
        forall|q: int|
            0 <= q < out.len() ==> (#[trigger] out[q].1)@.series_id != ss[p].series_id,
{
    reveal(pairs_from_prefix);
    assert forall|q: int| 0 <= q < out.len() implies (#[trigger] out[q].1)@.series_id
        != ss[p].series_id by {
        let p0 = choose|p0: int| 0 <= p0 < p && (#[trigger] out[q].1)@ == ss[p0];
        assert(ss[p0].series_id != ss[p].series_id);
    }
}

/// In a sorted pair list, once the scan stops, everything from the slot on
/// comes strictly after the new identifier.
proof fn lemma_after_slot(out: Seq<(SeriesId, SeriesSpec)>, j: int, id: Seq<char>)
    requires
        pairs_sorted(out),
        0 <= j < out.len(),
        !crate::text::lex_lt(out[j].1@.series_id, id),
        forall|q: int| 0 <= q < out.len() ==> (#[trigger] out[q].1)@.series_id != id,
    ensures
        forall|b: int|
            j <= b < out.len() ==> crate::text::lex_lt(id, (#[trigger] out[b].1)@.series_id),
{
    reveal(pairs_sorted);
    assert forall|b: int| j <= b < out.len() implies crate::text::lex_lt(
        id,
        (#[trigger] out[b].1)@.series_id,
    ) by {
        crate::text::lemma_lex_total(out[j].1@.series_id, id);
        if b > j {
            crate::text::lemma_lex_transitive(id, out[j].1@.series_id, out[b].1@.series_id);
        }
    }
}

/// The slot where `id` belongs in a sorted pair list: after every entry that
/// is lexicographically before it.
fn slot_in(out: &Vec<(SeriesId, SeriesSpec)>, id: &SeriesId) -> (j: usize)
    ensures
        j <= out@.len(),
        forall|a: int|
            0 <= a < j ==> crate::text::lex_lt((#[trigger] out@[a].1)@.series_id, id@),
        j < out@.len() ==> !crate::text::lex_lt(out@[j as int].1@.series_id, id@),
{
    let mut j: usize = 0;
    while j < out.len() && crate::text::str_lt(out[j].1.series_id.as_str(), id.as_str())
        invariant
            j <= out@.len(),
            forall|a: int|
                0 <= a < j ==> crate::text::lex_lt((#[trigger] out@[a].1)@.series_id, id@),
        decreases out@.len() - j,
    {
        j = j + 1;
    }
    j
}

/// Places one record at its sorted slot, keeping every property of the pair
/// list.
#[verifier::rlimit(100)]
fn place_record(
    out: &mut Vec<(SeriesId, SeriesSpec)>,
    e: &SeriesSpec,
    Ghost(ss): Ghost<Seq<SeriesRec>>,
    Ghost(p): Ghost<int>,
)
    requires
        0 <= p < ss.len(),
        e@ == ss[p],
        forall|p1: int, p2: int|
            0 <= p1 < p2 < ss.len() ==> (#[trigger] ss[p1]).series_id != (
            #[trigger] ss[p2]).series_id,
        pairs_coherent(old(out)@),
        pairs_from_prefix(old(out)@, ss, p),
        prefix_covered(old(out)@, ss, p),
        pairs_sorted(old(out)@),
    ensures
        final(out)@.len() == old(out)@.len() + 1,
        pairs_coherent(final(out)@),
        pairs_from_prefix(final(out)@, ss, p + 1),
        prefix_covered(final(out)@, ss, p + 1),
        pairs_sorted(final(out)@),
{
    proof {
        lemma_fresh_id_differs(out@, ss, p);
    }
    let j = slot_in(out, &e.series_id);
    proof {
        if j < out@.len() {
            lemma_after_slot(out@, j as int, e@.series_id);
        }
    }
    let ghost out0 = out@;
    let pr = (e.series_id.clone(), e.clone());
    let ghost prv = pr;
    out.insert(j, pr);
    proof {
        lemma_insert_step_coherent(out0, prv, j as int, out@);
        lemma_insert_step_members(out0, prv, j as int, out@, ss, p);
        lemma_insert_step_sorted(out0, prv, j as int, out@);
    }
}

/// The members of one bucket as pairs of identifier and record, sorted by
/// identifier.
#[verifier::rlimit(50)]
fn sort_bucket(b: &Vec<SeriesSpec>) -> (out: Vec<(SeriesId, SeriesSpec)>)
    requires
        forall|p1: int, p2: int|
            0 <= p1 < p2 < b@.len() ==> (#[trigger] b@[p1])@.series_id != (
            #[trigger] b@[p2])@.series_id,
    ensures
        out@.len() == b@.len(),
        pairs_coherent(out@),
        pairs_from_prefix(out@, Seq::new(b@.len(), |n: int| b@[n]@), b@.len() as int),
        prefix_covered(out@, Seq::new(b@.len(), |n: int| b@[n]@), b@.len() as int),
        pairs_sorted(out@),
{
    let ghost ss = Seq::new(b@.len(), |n: int| b@[n]@);
    let mut out: Vec<(SeriesId, SeriesSpec)> = Vec::new();
    let mut p: usize = 0;
    proof {
        reveal(pairs_coherent);
        reveal(pairs_from_prefix);
        reveal(prefix_covered);
        reveal(pairs_sorted);
        assert(pairs_coherent(out@));
        assert(pairs_from_prefix(out@, ss, 0));
        assert(prefix_covered(out@, ss, 0));
        assert(pairs_sorted(out@));
    }
    while p < b.len()
        invariant
            ss == Seq::new(b@.len(), |n: int| b@[n]@),
            forall|p1: int, p2: int|
                0 <= p1 < p2 < ss.len() ==> (#[trigger] ss[p1]).series_id != (
                #[trigger] ss[p2]).series_id,
            p <= b@.len(),
            out@.len() == p,
            pairs_coherent(out@),
            pairs_from_prefix(out@, ss, p as int),
            prefix_covered(out@, ss, p as int),
            pairs_sorted(out@),
        decreases b@.len() - p,
    {
        let e = &b[p];
        proof {
            assert(e@ == ss[p as int]);
        }
        place_record(&mut out, e, Ghost(ss), Ghost(p as int));
        p = p + 1;
    }
    out
}

impl SeriesSpecMap {
    /// The bucket for `key` as pairs of identifier and record, ordered by
    /// identifier — the keyed view of one bucket, sorted for stable reading,
    /// independent of declaration order.
    pub fn get_inner_map(&self, key: &(DataType, Country)) -> (r: Option<
        Vec<(SeriesId, SeriesSpec)>,
    >)
        requires
            self.wf(),
        ensures
            match r {
                Some(v) => {
                    &&& has_key(self@, *key)
                    &&& v@.len() == bucket_seq(self@, *key).len()
                    &&& pairs_coherent(v@)
                    &&& pairs_from_prefix(
                        v@,
                        bucket_seq(self@, *key),
                        bucket_seq(self@, *key).len() as int,
                    )
                    &&& prefix_covered(
                        v@,
                        bucket_seq(self@, *key),
                        bucket_seq(self@, *key).len() as int,
                    )
                    &&& pairs_sorted(v@)
                },
                None => !has_key(self@, *key),
            },
    {
        let k = (key.0, key.1);
        match self.bucket_index_of_key(k) {
            None => None,
            Some(i) => {
                let b = &self.map[i];
                let ghost ss = self@[i as int].seriess;
                proof {
                    assert(b@ == self@[i as int]);
                    assert(has_key(self@, k));
                    let i0 = choose|i0: int|
                        0 <= i0 < self@.len() && (#[trigger] self@[i0]).key == k;
                    if i0 != i {
                        lemma_sorted_keys_distinct(self@, i0, i as int);
                    }
                    assert(bucket_seq(self@, k) == ss);
                    assert(Seq::new(b.seriess@.len(), |n: int| b.seriess@[n]@) =~= ss);
                    reveal(ids_distinct);
                    // identifiers inside one bucket never repeat
                    assert forall|p1: int, p2: int|
                        0 <= p1 < p2 < b.seriess@.len() implies (#[trigger] b.seriess@[p1])@.series_id
                        != (#[trigger] b.seriess@[p2])@.series_id by {
                        assert(self@[i as int].seriess[p1].series_id
                            != self@[i as int].seriess[p2].series_id);
                    }
                }
                Some(sort_bucket(&b.seriess))
            },
        }
    }
}

/// Round trip: a record folded into a well-formed index is exactly what a/// Round trip: a record folded into a well-formed index is exactly what a
/// lookup of its identifier then finds.
pub proof fn lemma_insert_round_trip(m0: SeriesSpecMap, m1: SeriesSpecMap, s: SeriesRec)
    requires
        m0.wf(),
        m1.wf(),
        m1@ == model_insert(m0@, s),
    ensures
        model_lookup(m1@, s.series_id) == Some(s),
{
    let bs0 = m0@;
    let bs1 = m1@;
    let k = (s.data_type, s.country);
    if model_contains_id(bs0, s.series_id) {
        let (i, p) = choose|i: int, p: int|
            0 <= i < bs0.len() && 0 <= p < bs0[i].seriess.len() && (
            #[trigger] bs0[i].seriess[p]).series_id == s.series_id;
        assert(bs1[i].seriess == replace_in(bs0[i].seriess, s));
        assert(bs1[i].seriess[p] == s);
        lemma_lookup_found(bs1, i, p);
    } else if has_key(bs0, k) {
        let i = choose|i: int| 0 <= i < bs0.len() && (#[trigger] bs0[i]).key == k;
        assert(bs1[i].seriess == bs0[i].seriess.push(s));
        let p = bs0[i].seriess.len() as int;
        assert(bs1[i].seriess[p] == s);
        lemma_lookup_found(bs1, i, p);
    } else {
        let pos = insert_pos(bs0, key_rank(k));
        lemma_insert_pos_bounds(bs0, key_rank(k));
        bs0.insert_ensures(pos, BucketRec { key: k, seriess: seq![s] });
        assert(bs1[pos].seriess[0] == s);
        lemma_lookup_found(bs1, pos, 0);
    }
}

/// Insertion order: a record with a fresh identifier joins the end of its
/// key's bucket, and no other bucket moves or changes. Updates never reorder
/// a bucket: they replace in place, as `model_insert` states.
pub proof fn lemma_insert_appends(bs: Seq<BucketRec>, s: SeriesRec, i: int)
    requires
        buckets_sorted(bs),
        !model_contains_id(bs, s.series_id),
        0 <= i < bs.len(),
        bs[i].key == (s.data_type, s.country),
    ensures
        model_insert(bs, s).len() == bs.len(),
        model_insert(bs, s)[i].key == bs[i].key,
        model_insert(bs, s)[i].seriess == bs[i].seriess.push(s),
        forall|j: int| 0 <= j < bs.len() && j != i ==> model_insert(bs, s)[j] == bs[j],
{
    let k = (s.data_type, s.country);
    assert(has_key(bs, k));
    assert forall|j: int| 0 <= j < bs.len() && j != i implies model_insert(bs, s)[j] == bs[j] by {
        if bs[j].key == k {
            lemma_sorted_keys_distinct(bs, j, i);
        }
    }
}

/// Reverse-index consistency: in a well-formed index, every identifier in
/// any bucket is reverse-mapped to exactly that bucket's key, and every
/// reverse entry names a bucket that holds its identifier.
pub proof fn lemma_reverse_consistency(m: &SeriesSpecMap)
    requires
        m.wf(),
    ensures
        forall|i: int, p: int|
            0 <= i < m@.len() && 0 <= p < m@[i].seriess.len() ==> rev_holds(
                m.rev_view(),
                (#[trigger] m@[i].seriess[p]).series_id,
                m@[i].key,
            ),
        forall|n: int|
            0 <= n < m.rev_view().len() ==> rev_entry_backed(m@, #[trigger] m.rev_view()[n]),
{
    reveal(rev_consistent);
}

/// The raw-data file a series is expected to have.
pub open spec fn csv_name(id: Seq<char>) -> Seq<char> {
    id + ".csv"@
}

/// The drift entries of one bucket: each member's identifier, and whether its
/// file stands in the listing.
pub open spec fn drift_of(ss: Seq<SeriesRec>, listing: Seq<Seq<char>>) -> Seq<(Seq<char>, bool)>
    decreases ss.len(),
{
    if ss.len() == 0 {
        Seq::empty()
    } else {
        drift_of(ss.drop_last(), listing).push(
            (ss.last().series_id, listing_has_file(listing, csv_name(ss.last().series_id))),
        )
    }
}

/// The drift entries of the whole index: bucket by bucket, in canonical
/// order, each against its own listing.
pub open spec fn full_drift(bs: Seq<BucketRec>, listings: Seq<Seq<Seq<char>>>) -> Seq<
    (Seq<char>, bool),
>
    recommends
        bs.len() == listings.len(),
    decreases bs.len(),
{
    if bs.len() == 0 {
        Seq::empty()
    } else {
        full_drift(bs.drop_last(), listings.drop_last()) + drift_of(
            bs.last().seriess,
            listings.last(),
        )
    }
}

/// One line of a drift report: a series and whether its file was found.
#[derive(Debug)]
pub struct ReportEntry {
    pub series_id: SeriesId,
    pub found: bool,
}

impl View for ReportEntry {
    type V = (Seq<char>, bool);

    open spec fn view(&self) -> (Seq<char>, bool) {
        (self.series_id@, self.found)
    }
}

/// A drift report: for every declared series, in index order, whether its
/// raw-data file is on disk.
#[derive(Debug)]
pub struct Report {
    pub entries: Vec<ReportEntry>,
}

impl View for Report {
    type V = Seq<(Seq<char>, bool)>;

    open spec fn view(&self) -> Seq<(Seq<char>, bool)> {
        Seq::new(self.entries@.len(), |i: int| self.entries@[i]@)
    }
}

/// The views of a vector of listings.
pub open spec fn listings_view(listings: Seq<Resources>) -> Seq<Seq<Seq<char>>> {
    Seq::new(listings.len(), |i: int| listings[i]@)
}

/// Compares the declared universe against one directory listing per bucket
/// and reports, for every series, whether `<series_id>.csv` is there.
///
/// The listings stand in the same canonical order as the buckets, one
/// listing per bucket, listed once and reused for every series in the
/// bucket. Nothing aborts on a miss: the report is always complete.
pub fn verify_listings(index: &SeriesSpecMap, listings: &Vec<Resources>) -> (r: Report)
    requires
        listings@.len() == index@.len(),
    ensures
        r@ == full_drift(index@, listings_view(listings@)),
{
    let ghost bs = index@;
    let ghost lv = listings_view(listings@);
    let mut entries: Vec<ReportEntry> = Vec::new();
    let mut i: usize = 0;
    proof {
        assert(bs.take(0) =~= Seq::<BucketRec>::empty());
        assert(lv.take(0) =~= Seq::<Seq<Seq<char>>>::empty());
    }
    while i < index.map.len()
        invariant
            i <= bs.len(),
            bs == index@,
            lv == listings_view(listings@),
            listings@.len() == bs.len(),
            bs.len() == index.map@.len(),
            Seq::new(entries@.len(), |n: int| entries@[n]@) =~= full_drift(
                bs.take(i as int),
                lv.take(i as int),
            ),
        decreases bs.len() - i,
    {
        let b = &index.map[i];
        let listing = &listings[i];
        proof {
            assert(b@ == bs[i as int]);
            assert(listing@ == lv[i as int]);
        }
        let mut p: usize = 0;
        while p < b.seriess.len()
            invariant
                i < bs.len(),
                b@ == bs[i as int],
                listing@ == lv[i as int],
                p <= b.seriess@.len(),
                Seq::new(entries@.len(), |n: int| entries@[n]@) =~= full_drift(
                    bs.take(i as int),
                    lv.take(i as int),
                ) + drift_of(bs[i as int].seriess.take(p as int), lv[i as int]),
            decreases b.seriess@.len() - p,
        {
            let sp = &b.seriess[p];
            let name = sp.series_id.0.clone().concat(".csv");
            let found = listing.has_file(name.as_str());
            proof {
                assert(b@.seriess[p as int] == b.seriess@[p as int]@);
                assert(name@ == csv_name(bs[i as int].seriess[p as int].series_id));
            }
            entries.push(ReportEntry { series_id: sp.series_id.clone(), found });
            proof {
                let ss = bs[i as int].seriess;
                let before = full_drift(bs.take(i as int), lv.take(i as int)) + drift_of(
                    ss.take(p as int),
                    lv[i as int],
                );
                let e = (
                    ss[p as int].series_id,
                    listing_has_file(lv[i as int], csv_name(ss[p as int].series_id)),
                );
                assert(ss.take(p + 1).drop_last() =~= ss.take(p as int));
                assert(ss.take(p + 1).last() == ss[p as int]);
                assert(drift_of(ss.take(p + 1), lv[i as int]) =~= drift_of(
                    ss.take(p as int),
                    lv[i as int],
                ).push(e));
                assert(Seq::new(entries@.len(), |n: int| entries@[n]@) =~= before.push(e));
                assert(before.push(e) =~= full_drift(bs.take(i as int), lv.take(i as int))
                    + drift_of(ss.take(p + 1), lv[i as int]));
            }
            p = p + 1;
        }
        proof {
            let ss = bs[i as int].seriess;
            assert(ss.take(ss.len() as int) =~= ss);
            assert(bs.take(i + 1).drop_last() =~= bs.take(i as int));
            assert(lv.take(i + 1).drop_last() =~= lv.take(i as int));
            assert(bs.take(i + 1).last() == bs[i as int]);
            assert(lv.take(i + 1).last() == lv[i as int]);
        }
        i = i + 1;
    }
    proof {
        assert(bs.take(bs.len() as int) =~= bs);
        assert(lv.take(lv.len() as int) =~= lv);
    }
    let r = Report { entries };
    proof {
        assert(r@ =~= full_drift(bs, lv));
    }
    r
}

/// Every declared series, buckets in canonical order, each bucket in
/// declaration order.
pub open spec fn flat_of(bs: Seq<BucketRec>) -> Seq<SeriesRec>
    decreases bs.len(),
{
    if bs.len() == 0 {
        Seq::empty()
    } else {
        flat_of(bs.drop_last()) + bs.last().seriess
    }
}

/// Every bucket member stands somewhere in the flattened index.
proof fn lemma_flat_of_member(bs: Seq<BucketRec>, i: int, p: int)
    requires
        0 <= i < bs.len(),
        0 <= p < bs[i].seriess.len(),
    ensures
        exists|n: int| 0 <= n < flat_of(bs).len() && #[trigger] flat_of(bs)[n] == bs[i].seriess[p],
    decreases bs.len(),
{
    if i == bs.len() - 1 {
        assert(flat_of(bs)[flat_of(bs.drop_last()).len() + p] == bs[i].seriess[p]);
    } else {
        assert(bs.drop_last()[i] == bs[i]);
        lemma_flat_of_member(bs.drop_last(), i, p);
        let n = choose|n: int|
            0 <= n < flat_of(bs.drop_last()).len() && #[trigger] flat_of(bs.drop_last())[n]
                == bs.drop_last()[i].seriess[p];
        assert(flat_of(bs)[n] == bs[i].seriess[p]);
    }
}

/// The remaining work after an interrupted pass: every series strictly after
/// `last_series_id` in the index's canonical order.
///
/// An identifier the index does not hold has no defined resume point: that is
/// an error, never a silent restart from the beginning or the end.
pub fn resume_from(index: &SeriesSpecMap, last_series_id: &SeriesId) -> (r: Result<
    Vec<SeriesSpec>,
    Error,
>)
    ensures
        match r {
            Ok(v) => exists|n: int|
                {
                    &&& 0 <= n < flat_of(index@).len()
                    &&& (#[trigger] flat_of(index@)[n]).series_id == last_series_id@
                    &&& forall|m: int|
                        0 <= m < n ==> (#[trigger] flat_of(index@)[m]).series_id
                            != last_series_id@
                    &&& Seq::new(v@.len(), |q: int| v@[q]@) == flat_of(index@).subrange(
                        n + 1,
                        flat_of(index@).len() as int,
                    )
                },
            Err(Error::UndefinedResumePoint { series_id }) => {
                &&& !model_contains_id(index@, last_series_id@)
                &&& series_id@ == last_series_id@
            },
            Err(_) => false,
        },
{
    let ghost bs = index@;
    // flatten the index
    let mut flat: Vec<SeriesSpec> = Vec::new();
    let mut i: usize = 0;
    proof {
        assert(bs.take(0) =~= Seq::<BucketRec>::empty());
    }
    while i < index.map.len()
        invariant
            i <= bs.len(),
            bs == index@,
            bs.len() == index.map@.len(),
            Seq::new(flat@.len(), |n: int| flat@[n]@) =~= flat_of(bs.take(i as int)),
        decreases bs.len() - i,
    {
        let b = &index.map[i];
        proof {
            assert(b@ == bs[i as int]);
        }
        let mut p: usize = 0;
        while p < b.seriess.len()
            invariant
                i < bs.len(),
                b@ == bs[i as int],
                p <= b.seriess@.len(),
                Seq::new(flat@.len(), |n: int| flat@[n]@) =~= flat_of(bs.take(i as int)) + bs[i as int].seriess.take(p as int),
            decreases b.seriess@.len() - p,
        {
            proof {
                assert(b@.seriess[p as int] == b.seriess@[p as int]@);
            }
            flat.push(b.seriess[p].clone());
            proof {
                let ss = bs[i as int].seriess;
                assert(ss.take(p + 1) =~= ss.take(p as int).push(ss[p as int]));
                assert(Seq::new(flat@.len(), |n: int| flat@[n]@) =~= (flat_of(bs.take(i as int))
                    + ss.take(p as int)).push(ss[p as int]));
                assert((flat_of(bs.take(i as int)) + ss.take(p as int)).push(ss[p as int]) =~= flat_of(
                    bs.take(i as int),
                ) + ss.take(p + 1));
            }
            p = p + 1;
        }
        proof {
            let ss = bs[i as int].seriess;
            assert(ss.take(ss.len() as int) =~= ss);
            assert(bs.take(i + 1).drop_last() =~= bs.take(i as int));
            assert(bs.take(i + 1).last() == bs[i as int]);
        }
        i = i + 1;
    }
    proof {
        assert(bs.take(bs.len() as int) =~= bs);
    }
    let ghost fv = flat_of(bs);
    // find the resume point
    let mut n: usize = 0;
    while n < flat.len()
        invariant
            n <= flat@.len(),
            Seq::new(flat@.len(), |q: int| flat@[q]@) =~= fv,
            fv == flat_of(bs),
            bs == index@,
            forall|m: int| 0 <= m < n ==> (#[trigger] fv[m]).series_id != last_series_id@,
        decreases flat@.len() - n,
    {
        proof {
            assert(fv[n as int] == flat@[n as int]@);
        }
        if str_eq(flat[n].series_id.as_str(), last_series_id.as_str()) {
            // collect everything strictly after the resume point
            let mut v: Vec<SeriesSpec> = Vec::new();
            let mut q: usize = n + 1;
            while q < flat.len()
                invariant
                    n < flat@.len(),
                    n + 1 <= q <= flat@.len(),
                    Seq::new(flat@.len(), |m: int| flat@[m]@) =~= fv,
                    Seq::new(v@.len(), |m: int| v@[m]@) =~= fv.subrange(n + 1, q as int),
                decreases flat@.len() - q,
            {
                proof {
                    assert(fv[q as int] == flat@[q as int]@);
                    assert(fv.subrange(n + 1, q + 1) =~= fv.subrange(n + 1, q as int).push(
                        fv[q as int],
                    ));
                }
                v.push(flat[q].clone());
                q = q + 1;
            }
            proof {
                assert(fv[n as int].series_id == last_series_id@);
            }
            return Ok(v);
        }
        n = n + 1;
    }
    proof {
        if model_contains_id(bs, last_series_id@) {
            let (i0, p0) = choose|i0: int, p0: int|
                0 <= i0 < bs.len() && 0 <= p0 < bs[i0].seriess.len() && (
                #[trigger] bs[i0].seriess[p0]).series_id == last_series_id@;
            lemma_flat_of_member(bs, i0, p0);
            let m = choose|m: int|
                0 <= m < flat_of(bs).len() && #[trigger] flat_of(bs)[m] == bs[i0].seriess[p0];
            assert(fv[m].series_id != last_series_id@);
        }
    }
    Err(Error::UndefinedResumePoint { series_id: last_series_id.0.clone() })
}

/// A file is an orphan when the base identifier recovered from its name is
/// not declared in the index.
pub open spec fn is_orphan(bs: Seq<BucketRec>, p: Seq<char>) -> bool {
    !model_contains_id(bs, stem_of(crate::path::file_stem_of(p)))
}

/// The orphan files among `files`, in listing order.
pub open spec fn orphans_of(bs: Seq<BucketRec>, files: Seq<Seq<char>>) -> Seq<Seq<char>>
    decreases files.len(),
{
    if files.len() == 0 {
        Seq::empty()
    } else {
        let rest = orphans_of(bs, files.drop_last());
        if is_orphan(bs, files.last()) {
            rest.push(files.last())
        } else {
            rest
        }
    }
}

/// The data files whose base identifier — the file stem, stripped of any
/// transformation suffix — is not declared in the index.
///
/// Orphans are reported, never deleted: removing data is a policy decision
/// for the caller, not a side effect of a verification pass.
pub fn find_orphans(index: &SeriesSpecMap, files: &Resources) -> (r: Resources)
    requires
        index.wf(),
    ensures
        r@ == orphans_of(index@, files@),
{
    let ghost fs = files@;
    let mut acc: Vec<String> = Vec::new();
    let mut i: usize = 0;
    proof {
        assert(fs.take(0) =~= Seq::<Seq<char>>::empty());
    }
    while i < files.0.len()
        invariant
            i <= fs.len(),
            fs == files@,
            fs.len() == files.0@.len(),
            index.wf(),
            Seq::new(acc@.len(), |n: int| acc@[n]@) =~= orphans_of(index@, fs.take(i as int)),
        decreases fs.len() - i,
    {
        let stem = crate::path::file_stem(files.0[i].as_str());
        let base = SeriesId::new(stem.as_str()).stem();
        proof {
            assert(fs[i as int] == files.0@[i as int]@);
            assert(base@ == stem_of(crate::path::file_stem_of(fs[i as int])));
            assert(fs.take(i + 1).drop_last() =~= fs.take(i as int));
            assert(fs.take(i + 1).last() == fs[i as int]);
        }
        let orphan = match index.get_series_spec(&base) {
            Some(_) => false,
            None => true,
        };
        if orphan {
            acc.push(files.0[i].clone());
        }
        i = i + 1;
    }
    proof {
        assert(fs.take(fs.len() as int) =~= fs);
    }
    let r = Resources(acc);
    proof {
        assert(r@ =~= orphans_of(index@, fs));
    }
    r
}

} // verus!
