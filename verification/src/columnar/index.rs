//! An index on a column: for each value the rows that hold it.

use crate::columnar::column::Column;
use crate::columnar::layout::file_get_bytes;
use crate::error::Error;
use crate::utils::text::{bytes_eq, bytes_less_or_equal, lex_less_or_equal};
use vstd::prelude::*;
use vstd::slice::slice_to_vec;

verus! {

/// The kind of an index.
#[derive(Debug, Clone, Copy, PartialEq, Eq, Structural)]
pub enum IndexType {
    /// B-tree index.
    BTree,
    /// Hash index.
    Hash,
    /// Bitmap index.
    Bitmap,
    /// Inverted index.
    Inverted,
}

/// The rows below `upto` of a column file whose bytes are `key`, in
/// ascending order.
pub open spec fn rows_with(file: Seq<u8>, key: Seq<u8>, upto: int) -> Seq<u64>
    decreases upto,
{
    if upto <= 0 {
        Seq::empty()
    } else if file_get_bytes(file, upto - 1) == Some(key) {
        rows_with(file, key, upto - 1).push((upto - 1) as u64)
    } else {
        rows_with(file, key, upto - 1)
    }
}

/// The number of rows below `upto` of a column file that have bytes.
pub open spec fn rows_with_bytes(file: Seq<u8>, upto: int) -> nat
    decreases upto,
{
    if upto <= 0 {
        0
    } else if file_get_bytes(file, upto - 1) is Some {
        rows_with_bytes(file, upto - 1) + 1
    } else {
        rows_with_bytes(file, upto - 1)
    }
}

/// Whether every element is greater than the one before.
pub open spec fn ascending(s: Seq<u64>) -> bool {
    forall|i: int, j: int| 0 <= i < j < s.len() ==> s[i] < s[j]
}

/// The rows with a key are in ascending order and lie below the bound.
pub proof fn lemma_rows_with(file: Seq<u8>, key: Seq<u8>, upto: int)
    requires
        0 <= upto <= u64::MAX,
    ensures
        ascending(rows_with(file, key, upto)),
        forall|i: int|
            0 <= i < rows_with(file, key, upto).len() ==> #[trigger] rows_with(file, key, upto)[i]
                < upto,
        forall|r: u64|
            rows_with(file, key, upto).contains(r) <==> r < upto && file_get_bytes(file, r as int)
                == Some(key),
    decreases upto,
{
    if upto > 0 {
        lemma_rows_with(file, key, upto - 1);
        let before = rows_with(file, key, upto - 1);
        let now = rows_with(file, key, upto);
        assert forall|r: u64| now.contains(r) <==> r < upto && file_get_bytes(file, r as int)
            == Some(key) by {
            if file_get_bytes(file, upto - 1) == Some(key) {
                assert(now == before.push((upto - 1) as u64));
                if now.contains(r) {
                    let i = choose|i: int| 0 <= i < now.len() && now[i] == r;
                    if i < before.len() {
                        assert(before[i] == r);
                        assert(before.contains(r));
                    }
                }
                if r < upto && file_get_bytes(file, r as int) == Some(key) {
                    if r < upto - 1 {
                        assert(before.contains(r));
                        let i = choose|i: int| 0 <= i < before.len() && before[i] == r;
                        assert(now[i] == r);
                    } else {
                        assert(now[now.len() - 1] == r);
                    }
                }
            }
        }
    }
}

/// One value of an index with the rows that hold it.
pub struct Bucket {
    key: Vec<u8>,
    rows: Vec<u64>,
}

/// The first index at or after `from` whose bucket has the key `key`.
pub closed spec fn bucket_of(buckets: Seq<Bucket>, key: Seq<u8>, from: int) -> Option<int>
    decreases buckets.len() - from,
{
    if from < 0 || from >= buckets.len() {
        None
    } else if buckets[from].key@ == key {
        Some(from)
    } else {
        bucket_of(buckets, key, from + 1)
    }
}

proof fn lemma_bucket_of(buckets: Seq<Bucket>, key: Seq<u8>, from: int)
    requires
        0 <= from,
    ensures
        match bucket_of(buckets, key, from) {
            Some(i) => from <= i < buckets.len() && buckets[i].key@ == key && forall|j: int|
                from <= j < i ==> buckets[j].key@ != key,
            None => forall|j: int| from <= j < buckets.len() ==> buckets[j].key@ != key,
        },
    decreases buckets.len() - from,
{
    if from < buckets.len() && buckets[from].key@ != key {
        lemma_bucket_of(buckets, key, from + 1);
    }
}

/// Whether the buckets have distinct keys, and rows in ascending order, at
/// least one each.
pub closed spec fn buckets_wf(buckets: Seq<Bucket>) -> bool {
    &&& forall|i: int, j: int|
        0 <= i < j < buckets.len() ==> buckets[i].key@ != buckets[j].key@
    &&& forall|i: int|
        0 <= i < buckets.len() ==> ascending((#[trigger] buckets[i]).rows@) && buckets[i].rows@.len()
            > 0
}

/// The rows that the buckets give for `key`.
pub closed spec fn lookup_in(buckets: Seq<Bucket>, key: Seq<u8>) -> Option<Seq<u64>> {
    match bucket_of(buckets, key, 0) {
        Some(i) => Some(buckets[i].rows@),
        None => None,
    }
}

/// Whether the buckets hold, for every key, the rows below `upto` of the
/// file with that key.
spec fn buckets_index(buckets: Seq<Bucket>, file: Seq<u8>, upto: int) -> bool {
    &&& forall|i: int, j: int|
        0 <= i < j < buckets.len() ==> buckets[i].key@ != buckets[j].key@
    &&& forall|i: int|
        0 <= i < buckets.len() ==> (#[trigger] buckets[i]).rows@ == rows_with(
            file,
            buckets[i].key@,
            upto,
        ) && buckets[i].rows@.len() > 0
    &&& forall|key: Seq<u8>|
        bucket_of(buckets, key, 0) is None ==> (#[trigger] rows_with(file, key, upto)).len() == 0
}

/// An index on a column, held in memory.
pub struct Index {
    column_name: String,
    index_type: IndexType,
    base_dir: String,
    data: Vec<Bucket>,
}

impl Index {
    /// The invariant of an index: no value has two entries, and the rows of
    /// a value are in ascending order.
    #[verifier::type_invariant]
    pub closed spec fn wf(self) -> bool {
        buckets_wf(self.data@)
    }

    /// The rows that the index gives for the value `key`, if it has any.
    pub closed spec fn spec_lookup(&self, key: Seq<u8>) -> Option<Seq<u64>> {
        lookup_in(self.data@, key)
    }

    /// The values that the index has rows for.
    pub closed spec fn spec_keys(&self) -> Set<Seq<u8>> {
        Set::new(|key: Seq<u8>| lookup_in(self.data@, key) is Some)
    }

    /// The name of the indexed column.
    pub closed spec fn spec_column_name(&self) -> Seq<char> {
        self.column_name@
    }

    /// The kind of the index.
    pub closed spec fn spec_index_type(&self) -> IndexType {
        self.index_type
    }

    /// The number of rows that the index holds, over all values.
    pub closed spec fn spec_entry_count(&self) -> nat {
        total_rows(self.data@, self.data@.len() as int)
    }

    /// The index has rows for exactly the values among its keys; the rows
    /// of a value are in ascending order, at least one.
    pub proof fn lemma_lookup(self, key: Seq<u8>)
        requires
            self.wf(),
        ensures
            self.spec_keys().contains(key) <==> self.spec_lookup(key) is Some,
            self.spec_lookup(key) matches Some(rows) ==> ascending(rows) && rows.len() > 0,
    {
        lemma_bucket_of(self.data@, key, 0);
    }

    /// An index without entries.
    pub fn new(column_name: &str, index_type: IndexType, base_dir: &str) -> (r: Index)
        ensures
            r.wf(),
            r.spec_column_name() == column_name@,
            r.spec_index_type() == index_type,
            forall|key: Seq<u8>| r.spec_lookup(key) is None,
            r.spec_entry_count() == 0,
    {
        Index {
            column_name: column_name.to_owned(),
            index_type,
            base_dir: base_dir.to_owned(),
            data: Vec::new(),
        }
    }

    /// The name of the indexed column.
    pub fn column_name(&self) -> (r: &str)
        ensures
            r@ == self.spec_column_name(),
    {
        self.column_name.as_str()
    }

    /// The kind of the index.
    pub fn index_type(&self) -> (r: IndexType)
        ensures
            r == self.spec_index_type(),
    {
        self.index_type
    }

    /// Fills the index from a column: what the index held is dropped, and
    /// every row that is not null is entered under its bytes.
    pub fn build(&mut self, column: &Column) -> (r: Result<(), Error>)
        ensures
            r is Ok,
            final(self).wf(),
            final(self).spec_column_name() == old(self).spec_column_name(),
            final(self).spec_index_type() == old(self).spec_index_type(),
            final(self).spec_entry_count() == rows_with_bytes(
                column.file(),
                column.spec_row_count() as int,
            ),
            forall|key: Seq<u8>|
                #![trigger final(self).spec_lookup(key)]
                final(self).spec_lookup(key) == if rows_with(
                    column.file(),
                    key,
                    column.spec_row_count() as int,
                ).len() > 0 {
                    Some(rows_with(column.file(), key, column.spec_row_count() as int))
                } else {
                    None
                },
    {
        let n: u64 = column.row_count();
        let ghost file = column.file();
        let mut buckets: Vec<Bucket> = Vec::new();
        let mut i: u64 = 0;
        while i < n
            invariant
                i <= n,
                file == column.file(),
                buckets_index(buckets@, file, i as int),
                total_rows(buckets@, buckets@.len() as int) == rows_with_bytes(file, i as int),
            decreases n - i,
        {
            let ghost before = buckets@;
            match column.get_bytes(i) {
                Some(value) => {
                    match find_bucket(&buckets, value) {
                        Some(k) => {
                            buckets[k].rows.push(i);
                            proof {
                                lemma_total_rows_update(before, buckets@, k as int, before.len() as int);
                                assert forall|key: Seq<u8>| bucket_of(buckets@, key, 0)
                                    == bucket_of(before, key, 0) by {
                                    lemma_bucket_of_same_keys(buckets@, before, key, 0);
                                }
                                lemma_bucket_of(before, value@, 0);
                                assert forall|j: int| 0 <= j < buckets@.len() implies (
                                #[trigger] buckets@[j]).rows@ == rows_with(
                                    file,
                                    buckets@[j].key@,
                                    i + 1,
                                ) && buckets@[j].rows@.len() > 0 by {
                                    if j != k {
                                        assert(buckets@[j] == before[j]);
                                        assert(before[j].key@ != before[k as int].key@);
                                    }
                                }
                                assert forall|key: Seq<u8>|
                                    bucket_of(buckets@, key, 0) is None implies (
                                #[trigger] rows_with(file, key, i + 1)).len() == 0 by {
                                    assert(rows_with(file, key, i as int).len() == 0);
                                    assert(key != value@);
                                }
                            }
                        },
                        None => {
                            let mut rows: Vec<u64> = Vec::new();
                            rows.push(i);
                            buckets.push(Bucket { key: slice_to_vec(value), rows });
                            proof {
                                let added = buckets@[before.len() as int];
                                lemma_total_rows_same(before, buckets@, before.len() as int);
                                lemma_bucket_of(before, value@, 0);
                                assert forall|key: Seq<u8>| bucket_of(buckets@, key, 0)
                                    == match bucket_of(before, key, 0) {
                                    Some(j) => Some(j),
                                    None => if key == value@ {
                                        Some(before.len() as int)
                                    } else {
                                        None
                                    },
                                } by {
                                    lemma_bucket_of_push(before, added, key, 0);
                                }
                                assert(rows_with(file, value@, i as int).len() == 0);
                                assert(added.rows@ =~= rows_with(file, value@, i + 1));
                                assert forall|j: int| 0 <= j < buckets@.len() implies (
                                #[trigger] buckets@[j]).rows@ == rows_with(
                                    file,
                                    buckets@[j].key@,
                                    i + 1,
                                ) && buckets@[j].rows@.len() > 0 by {
                                    if j < before.len() {
                                        assert(buckets@[j] == before[j]);
                                    }
                                }
                                assert forall|key: Seq<u8>|
                                    bucket_of(buckets@, key, 0) is None implies (
                                #[trigger] rows_with(file, key, i + 1)).len() == 0 by {
                                    assert(rows_with(file, key, i as int).len() == 0);
                                }
                            }
                        },
                    }
                },
                None => {
                    proof {
                        assert forall|j: int| 0 <= j < buckets@.len() implies (
                        #[trigger] buckets@[j]).rows@ == rows_with(file, buckets@[j].key@, i + 1)
                            && buckets@[j].rows@.len() > 0 by {}
                        assert forall|key: Seq<u8>|
                            bucket_of(buckets@, key, 0) is None implies (#[trigger] rows_with(
                            file,
                            key,
                            i + 1,
                        )).len() == 0 by {
                            assert(rows_with(file, key, i as int).len() == 0);
                        }
                    }
                },
            }
            i += 1;
        }
        proof {
            assert forall|j: int| 0 <= j < buckets@.len() implies ascending(
                (#[trigger] buckets@[j]).rows@,
            ) by {
                lemma_rows_with(file, buckets@[j].key@, n as int);
            }
            assert forall|key: Seq<u8>| #![trigger lookup_in(buckets@, key)]
                lookup_in(buckets@, key) == if rows_with(file, key, n as int).len() > 0 {
                    Some(rows_with(file, key, n as int))
                } else {
                    None
                } by {
                lemma_bucket_of(buckets@, key, 0);
            }
        }
        self.data = buckets;
        Ok(())
    }

    /// The rows that hold `value`, in ascending order; `None` where no row
    /// holds it.
    pub fn lookup(&self, value: &[u8]) -> (r: Option<&[u64]>)
        ensures
            match r {
                Some(rows) => self.spec_lookup(value@) == Some(rows@),
                None => self.spec_lookup(value@) is None,
            },
    {
        match find_bucket(&self.data, value) {
            Some(k) => Some(self.data[k].rows.as_slice()),
            None => None,
        }
    }

    /// The rows that hold a value from `start` to `end`, both included, in
    /// the order of byte strings; the rows come in ascending order, each
    /// once.
    pub fn lookup_range(&self, start: &[u8], end: &[u8]) -> (r: Vec<u64>)
        ensures
            ascending(r@),
            forall|row: u64|
                r@.contains(row) <==> exists|key: Seq<u8>|
                    lex_less_or_equal(start@, key) && lex_less_or_equal(key, end@) && (
                    #[trigger] self.spec_lookup(key)) is Some && self.spec_lookup(
                        key,
                    ).unwrap().contains(row),
    {
        proof {
            use_type_invariant(self);
        }
        let mut result: Vec<u64> = Vec::new();
        let mut k: usize = 0;
        while k < self.data.len()
            invariant
                k <= self.data@.len(),
                buckets_wf(self.data@),
                ascending(result@),
                forall|row: u64|
                    result@.contains(row) <==> exists|p: int|
                        0 <= p < k && lex_less_or_equal(start@, (#[trigger] self.data@[p]).key@)
                            && lex_less_or_equal(self.data@[p].key@, end@)
                            && self.data@[p].rows@.contains(row),
            decreases self.data@.len() - k,
        {
            let bucket: &Bucket = &self.data[k];
            let ghost before = result@;
            if bytes_less_or_equal(start, bucket.key.as_slice()) && bytes_less_or_equal(
                bucket.key.as_slice(),
                end,
            ) {
                result = merge(&result, &bucket.rows);
            }
            proof {
                assert forall|row: u64| result@.contains(row) <==> exists|p: int|
                    0 <= p < k + 1 && lex_less_or_equal(start@, (#[trigger] self.data@[p]).key@)
                        && lex_less_or_equal(self.data@[p].key@, end@)
                        && self.data@[p].rows@.contains(row) by {
                    let in_range = lex_less_or_equal(start@, self.data@[k as int].key@)
                        && lex_less_or_equal(self.data@[k as int].key@, end@);
                    if result@.contains(row) {
                        if before.contains(row) {
                            let p = choose|p: int|
                                0 <= p < k && lex_less_or_equal(
                                    start@,
                                    (#[trigger] self.data@[p]).key@,
                                ) && lex_less_or_equal(self.data@[p].key@, end@)
                                    && self.data@[p].rows@.contains(row);
                            assert(0 <= p < k + 1);
                        } else {
                            assert(in_range && self.data@[k as int].rows@.contains(row));
                        }
                    }
                    if exists|p: int|
                        0 <= p < k + 1 && lex_less_or_equal(
                            start@,
                            (#[trigger] self.data@[p]).key@,
                        ) && lex_less_or_equal(self.data@[p].key@, end@)
                            && self.data@[p].rows@.contains(row) {
                        let p = choose|p: int|
                            0 <= p < k + 1 && lex_less_or_equal(
                                start@,
                                (#[trigger] self.data@[p]).key@,
                            ) && lex_less_or_equal(self.data@[p].key@, end@)
                                && self.data@[p].rows@.contains(row);
                        if p < k {
                            assert(before.contains(row));
                        }
                    }
                }
            }
            k += 1;
        }
        proof {
            assert forall|row: u64| result@.contains(row) <==> exists|key: Seq<u8>|
                lex_less_or_equal(start@, key) && lex_less_or_equal(key, end@) && (
                #[trigger] self.spec_lookup(key)) is Some && self.spec_lookup(
                    key,
                ).unwrap().contains(row) by {
                if result@.contains(row) {
                    let p = choose|p: int|
                        0 <= p < k && lex_less_or_equal(start@, (#[trigger] self.data@[p]).key@)
                            && lex_less_or_equal(self.data@[p].key@, end@)
                            && self.data@[p].rows@.contains(row);
                    let key = self.data@[p].key@;
                    lemma_bucket_of(self.data@, key, 0);
                    assert(self.spec_lookup(key) == Some(self.data@[p].rows@));
                }
                if exists|key: Seq<u8>|
                    lex_less_or_equal(start@, key) && lex_less_or_equal(key, end@) && (
                    #[trigger] self.spec_lookup(key)) is Some && self.spec_lookup(
                        key,
                    ).unwrap().contains(row) {
                    let key = choose|key: Seq<u8>|
                        lex_less_or_equal(start@, key) && lex_less_or_equal(key, end@) && (
                        #[trigger] self.spec_lookup(key)) is Some && self.spec_lookup(
                            key,
                        ).unwrap().contains(row);
                    lemma_bucket_of(self.data@, key, 0);
                    let p = bucket_of(self.data@, key, 0).unwrap();
                    assert(self.data@[p].key@ == key);
                    assert(self.data@[p].rows@.contains(row));
                }
            }
        }
        result
    }

    /// The number of distinct values that the index has rows for.
    pub fn cardinality(&self) -> (r: usize)
        ensures
            self.spec_keys().finite(),
            r == self.spec_keys().len(),
    {
        proof {
            use_type_invariant(self);
            let keys = self.data@.map_values(|b: Bucket| b.key@);
            assert(keys.no_duplicates());
            keys.unique_seq_to_set();
            assert(self.spec_keys() =~= keys.to_set()) by {
                assert forall|key: Seq<u8>| self.spec_keys().contains(key) <==> keys.to_set().contains(
                    key,
                ) by {
                    lemma_bucket_of(self.data@, key, 0);
                    if self.spec_keys().contains(key) {
                        let p = bucket_of(self.data@, key, 0).unwrap();
                        assert(keys[p] == key);
                    }
                    if keys.to_set().contains(key) {
                        let p = choose|p: int| 0 <= p < keys.len() && keys[p] == key;
                        assert(self.data@[p].key@ == key);
                    }
                }
            }
        }
        self.data.len()
    }

    /// The number of rows that the index holds, over all values; the
    /// greatest `usize` where the number does not fit.
    pub fn entry_count(&self) -> (r: usize)
        ensures
            r == if self.spec_entry_count() <= usize::MAX {
                self.spec_entry_count()
            } else {
                usize::MAX as nat
            },
    {
        let mut total: usize = 0;
        let mut k: usize = 0;
        while k < self.data.len()
            invariant
                k <= self.data@.len(),
                total == if total_rows(self.data@, k as int) <= usize::MAX {
                    total_rows(self.data@, k as int)
                } else {
                    usize::MAX as nat
                },
            decreases self.data@.len() - k,
        {
            total = total.saturating_add(self.data[k].rows.len());
            k += 1;
        }
        total
    }
}

/// The union of two ascending sequences, ascending.
fn merge(a: &Vec<u64>, b: &Vec<u64>) -> (r: Vec<u64>)
    requires
        ascending(a@),
        ascending(b@),
    ensures
        ascending(r@),
        forall|x: u64| r@.contains(x) <==> a@.contains(x) || b@.contains(x),
{
    let mut out: Vec<u64> = Vec::new();
    let mut i: usize = 0;
    let mut j: usize = 0;
    while i < a.len() || j < b.len()
        invariant
            i <= a@.len(),
            j <= b@.len(),
            ascending(a@),
            ascending(b@),
            ascending(out@),
            forall|k: int| 0 <= k < out@.len() && i < a@.len() ==> #[trigger] out@[k] < a@[i as int],
            forall|k: int| 0 <= k < out@.len() && j < b@.len() ==> #[trigger] out@[k] < b@[j as int],
            forall|k: int|
                0 <= k < out@.len() ==> a@.contains(#[trigger] out@[k]) || b@.contains(out@[k]),
            forall|p: int| 0 <= p < i ==> out@.contains(#[trigger] a@[p]),
            forall|q: int| 0 <= q < j ==> out@.contains(#[trigger] b@[q]),
        decreases a@.len() - i + b@.len() - j,
    {
        let ghost before = out@;
        let take_a: bool = if i < a.len() && j < b.len() {
            a[i] <= b[j]
        } else {
            i < a.len()
        };
        let next: u64 = if take_a {
            a[i]
        } else {
            b[j]
        };
        out.push(next);
        proof {
            assert(out@[out@.len() - 1] == next);
            assert forall|p: int| 0 <= p < i implies out@.contains(#[trigger] a@[p]) by {
                let k = choose|k: int| 0 <= k < before.len() && before[k] == a@[p];
                assert(out@[k] == a@[p]);
            }
            assert forall|q: int| 0 <= q < j implies out@.contains(#[trigger] b@[q]) by {
                let k = choose|k: int| 0 <= k < before.len() && before[k] == b@[q];
                assert(out@[k] == b@[q]);
            }
        }
        if take_a {
            if j < b.len() && a[i] == b[j] {
                j += 1;
            }
            i += 1;
        } else {
            j += 1;
        }
    }
    proof {
        assert forall|x: u64| out@.contains(x) <==> a@.contains(x) || b@.contains(x) by {
            if a@.contains(x) {
                let p = choose|p: int| 0 <= p < a@.len() && a@[p] == x;
                assert(out@.contains(a@[p]));
            }
            if b@.contains(x) {
                let q = choose|q: int| 0 <= q < b@.len() && b@[q] == x;
                assert(out@.contains(b@[q]));
            }
        }
    }
    out
}

/// The index of the bucket with the key `key`.
fn find_bucket(buckets: &Vec<Bucket>, key: &[u8]) -> (r: Option<usize>)
    ensures
        match r {
            Some(k) => bucket_of(buckets@, key@, 0) == Some(k as int) && k < buckets@.len()
                && buckets@[k as int].key@ == key@,
            None => bucket_of(buckets@, key@, 0) is None,
        },
{
    let mut k: usize = 0;
    proof {
        lemma_bucket_of(buckets@, key@, 0);
    }
    while k < buckets.len()
        invariant
            k <= buckets@.len(),
            bucket_of(buckets@, key@, 0) == bucket_of(buckets@, key@, k as int),
        decreases buckets@.len() - k,
    {
        if bytes_eq(buckets[k].key.as_slice(), key) {
            return Some(k);
        }
        k += 1;
    }
    None
}

proof fn lemma_bucket_of_same_keys(a: Seq<Bucket>, b: Seq<Bucket>, key: Seq<u8>, from: int)
    requires
        a.len() == b.len(),
        forall|j: int| 0 <= j < a.len() ==> a[j].key@ == b[j].key@,
    ensures
        bucket_of(a, key, from) == bucket_of(b, key, from),
    decreases a.len() - from,
{
    if 0 <= from < a.len() && a[from].key@ != key {
        lemma_bucket_of_same_keys(a, b, key, from + 1);
    }
}

proof fn lemma_bucket_of_push(a: Seq<Bucket>, bucket: Bucket, key: Seq<u8>, from: int)
    requires
        0 <= from <= a.len(),
    ensures
        bucket_of(a.push(bucket), key, from) == match bucket_of(a, key, from) {
            Some(i) => Some(i),
            None => if bucket.key@ == key {
                Some(a.len() as int)
            } else {
                None
            },
        },
    decreases a.len() - from,
{
    let more = a.push(bucket);
    if from < a.len() {
        assert(more[from] == a[from]);
        if a[from].key@ != key {
            lemma_bucket_of_push(a, bucket, key, from + 1);
        }
    } else {
        assert(more[from] == bucket);
        assert(bucket_of(more, key, from + 1) is None);
    }
}

/// Buckets that agree up to `count` hold as many rows up to `count`.
proof fn lemma_total_rows_same(a: Seq<Bucket>, b: Seq<Bucket>, count: int)
    requires
        0 <= count <= a.len(),
        count <= b.len(),
        forall|j: int| 0 <= j < count ==> a[j].rows@.len() == b[j].rows@.len(),
    ensures
        total_rows(a, count) == total_rows(b, count),
    decreases count,
{
    if count > 0 {
        lemma_total_rows_same(a, b, count - 1);
    }
}

/// One more row in bucket `k` is one more row in all.
proof fn lemma_total_rows_update(a: Seq<Bucket>, b: Seq<Bucket>, k: int, count: int)
    requires
        a.len() == b.len(),
        0 <= k < a.len(),
        0 <= count <= a.len(),
        b[k].rows@.len() == a[k].rows@.len() + 1,
        forall|j: int| 0 <= j < a.len() && j != k ==> a[j].rows@.len() == b[j].rows@.len(),
    ensures
        total_rows(b, count) == total_rows(a, count) + if k < count {
            1nat
        } else {
            0nat
        },
    decreases count,
{
    if count > 0 {
        lemma_total_rows_update(a, b, k, count - 1);
    }
}

/// The number of rows in the first `count` buckets.
pub closed spec fn total_rows(buckets: Seq<Bucket>, count: int) -> nat
    decreases count,
{
    if count <= 0 || count > buckets.len() {
        0
    } else {
        total_rows(buckets, count - 1) + buckets[count - 1].rows@.len()
    }
}

} // verus!
