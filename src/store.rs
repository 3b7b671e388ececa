use vstd::prelude::*;

use crate::record::{bumped, counter_of, view_of, CounterKind, Record, RecordId, RecordView};
use crate::sources::{now_millis, random_record_id};

verus! {

/// The largest page that a listing hands out, whatever size was asked for.
pub const MAX_PAGE_SIZE: u64 = 50;

/// Failures of the store's operations.
#[derive(Clone, Copy, Debug, PartialEq, Eq, Structural)]
pub enum StoreError {
    /// No record has the given identifier.
    NotFound,
    /// An argument has no meaning and no safe default (an unknown sort key).
    InvalidArgument,
    /// The identifier chosen for a new record is already in use.
    IdTaken,
    /// The counter already holds the largest value a `u64` can hold.
    CounterOverflow,
}

/// The descriptive fields of a record that is about to be created.
pub struct NewRecord {
    pub title: String,
    pub creator: String,
    pub description: String,
    pub locator: String,
}

/// The order in which a listing hands out records.
#[derive(Clone, Copy, Debug, PartialEq, Eq, Structural)]
pub enum SortKey {
    /// Latest creation time first.
    MostRecentFirst,
    /// Largest like count first.
    MostLikedFirst,
}

/// One page of a listing, with the size of the whole listing.
pub struct ListResult {
    pub items: Vec<RecordView>,
    pub total_count: u64,
    pub total_pages: u64,
}

/// The records of a store, keyed by identifier.
pub struct RecordStore {
    records: Vec<Record>,
}

/// No two records share an identifier.
pub open spec fn unique_ids(s: Seq<Record>) -> bool {
    forall|i: int, j: int| 0 <= i < s.len() && 0 <= j < s.len() && i != j ==> s[i].id != s[j].id
}

/// Some record of `s` has identifier `id`.
pub open spec fn has_id(s: Seq<Record>, id: RecordId) -> bool {
    exists|i: int| 0 <= i < s.len() && s[i].id == id
}

/// The position of the record with identifier `id` (meaningful when `has_id(s, id)`).
pub open spec fn index_of(s: Seq<Record>, id: RecordId) -> int {
    choose|i: int| 0 <= i < s.len() && s[i].id == id
}

/// The record with identifier `id` (meaningful when `has_id(s, id)`).
pub open spec fn record_of(s: Seq<Record>, id: RecordId) -> Record {
    s[index_of(s, id)]
}

/// The record that creating `fields` under `id` at time `created_at` stores:
/// both counters start at zero.
pub open spec fn fresh_record(id: RecordId, fields: NewRecord, created_at: i64) -> Record {
    Record {
        id,
        title: fields.title,
        creator: fields.creator,
        description: fields.description,
        locator: fields.locator,
        created_at,
        likes: 0,
        views: 0,
    }
}

/// The records after an insertion of `r`: added at the end unless its identifier is taken.
pub open spec fn insert_step(s: Seq<Record>, r: Record) -> Seq<Record> {
    if has_id(s, r.id) {
        s
    } else {
        s.push(r)
    }
}

/// The records after an increment of counter `c` of record `id`: that counter
/// advances by one unless it is already at its maximum; nothing else changes.
pub open spec fn increment_step(s: Seq<Record>, id: RecordId, c: CounterKind) -> Seq<Record> {
    s.map_values(
        |r: Record|
            if r.id == id && counter_of(r, c) < u64::MAX {
                bumped(r, c)
            } else {
                r
            },
    )
}

/// With unique identifiers, the record found at a position is the one `record_of` names.
pub proof fn lemma_record_at(s: Seq<Record>, i: int)
    requires
        unique_ids(s),
        0 <= i < s.len(),
    ensures
        has_id(s, s[i].id),
        index_of(s, s[i].id) == i,
        record_of(s, s[i].id) == s[i],
{
    assert(has_id(s, s[i].id));
}

impl View for RecordStore {
    type V = Seq<Record>;

    closed spec fn view(&self) -> Seq<Record> {
        self.records@
    }
}

impl RecordStore {
    /// The store's invariant: identifiers are unique.
    pub open spec fn wf(&self) -> bool {
        unique_ids(self@)
    }

    /// An empty store.
    pub fn new() -> (s: RecordStore)
        ensures
            s@ == Seq::<Record>::empty(),
            s.wf(),
    {
        RecordStore { records: Vec::new() }
    }

    /// The number of records held.
    pub fn len(&self) -> (n: usize)
        ensures
            n == self@.len(),
    {
        self.records.len()
    }

    /// The position of the record with identifier `id`, if there is one.
    fn position(&self, id: RecordId) -> (r: Option<usize>)
        ensures
            match r {
                Some(i) => i < self@.len() && self@[i as int].id == id,
                None => !has_id(self@, id),
            },
    {
        let mut i: usize = 0;
        while i < self.records.len()
            invariant
                i <= self.records@.len(),
                forall|k: int| 0 <= k < i ==> self.records@[k].id != id,
            decreases self.records@.len() - i,
        {
            if self.records[i].id == id {
                return Some(i);
            }
            i = i + 1;
        }
        None
    }

    /// Point lookup: the view of the record with identifier `id`.
    pub fn get_record(&self, id: RecordId) -> (r: Result<RecordView, StoreError>)
        requires
            self.wf(),
        ensures
            !has_id(self@, id) ==> r == Err::<RecordView, StoreError>(StoreError::NotFound),
            has_id(self@, id) ==> r == Ok::<RecordView, StoreError>(view_of(record_of(self@, id))),
    {
        match self.position(id) {
            Some(i) => {
                proof {
                    lemma_record_at(self@, i as int);
                }
                Ok(self.records[i].project())
            },
            None => Err(StoreError::NotFound),
        }
    }

    /// The current value of counter `c` of record `id`.
    pub fn read_counter(&self, id: RecordId, c: CounterKind) -> (r: Result<u64, StoreError>)
        requires
            self.wf(),
        ensures
            !has_id(self@, id) ==> r == Err::<u64, StoreError>(StoreError::NotFound),
            has_id(self@, id) ==> r == Ok::<u64, StoreError>(counter_of(record_of(self@, id), c)),
    {
        match self.position(id) {
            Some(i) => {
                proof {
                    lemma_record_at(self@, i as int);
                }
                Ok(self.records[i].counter(c))
            },
            None => Err(StoreError::NotFound),
        }
    }

    /// Stores a new record under `id` with both counters at zero, unless `id` is taken.
    pub fn insert(&mut self, id: RecordId, fields: NewRecord, created_at: i64) -> (r: Result<
        RecordId,
        StoreError,
    >)
        requires
            old(self).wf(),
        ensures
            final(self).wf(),
            final(self)@ == insert_step(old(self)@, fresh_record(id, fields, created_at)),
            has_id(old(self)@, id) ==> r == Err::<RecordId, StoreError>(StoreError::IdTaken),
            !has_id(old(self)@, id) ==> r == Ok::<RecordId, StoreError>(id),
    {
        match self.position(id) {
            Some(_) => Err(StoreError::IdTaken),
            None => {
                let rec = Record {
                    id,
                    title: fields.title,
                    creator: fields.creator,
                    description: fields.description,
                    locator: fields.locator,
                    created_at,
                    likes: 0,
                    views: 0,
                };
                self.records.push(rec);
                Ok(id)
            },
        }
    }

    /// Advances counter `c` of record `id` by one and returns its new value.
    pub fn increment_counter(&mut self, id: RecordId, c: CounterKind) -> (r: Result<u64, StoreError>)
        requires
            old(self).wf(),
        ensures
            final(self).wf(),
            final(self)@ == increment_step(old(self)@, id, c),
            !has_id(old(self)@, id) ==> r == Err::<u64, StoreError>(StoreError::NotFound)
                && final(self)@ == old(self)@,
            has_id(old(self)@, id) && counter_of(record_of(old(self)@, id), c) == u64::MAX ==> r
                == Err::<u64, StoreError>(StoreError::CounterOverflow),
            has_id(old(self)@, id) && counter_of(record_of(old(self)@, id), c) < u64::MAX ==> r
                == Ok::<u64, StoreError>((counter_of(record_of(old(self)@, id), c) + 1) as u64),
    {
        match self.position(id) {
            None => {
                proof {
                    assert(self@ =~= increment_step(self@, id, c));
                }
                Err(StoreError::NotFound)
            },
            Some(i) => {
                proof {
                    lemma_record_at(self@, i as int);
                }
                let ghost before = self@;
                let cur = self.records[i].counter(c);
                if cur == u64::MAX {
                    proof {
                        assert(self@ =~= increment_step(before, id, c));
                    }
                    return Err(StoreError::CounterOverflow);
                }
                let old_rec = &self.records[i];
                let new_rec = Record {
                    id: old_rec.id,
                    title: old_rec.title.clone(),
                    creator: old_rec.creator.clone(),
                    description: old_rec.description.clone(),
                    locator: old_rec.locator.clone(),
                    created_at: old_rec.created_at,
                    likes: match c {
                        CounterKind::Likes => cur + 1,
                        CounterKind::Views => old_rec.likes,
                    },
                    views: match c {
                        CounterKind::Likes => old_rec.views,
                        CounterKind::Views => cur + 1,
                    },
                };
                self.records.set(i, new_rec);
                proof {
                    assert(self@ =~= increment_step(before, id, c));
                }
                Ok(cur + 1)
            },
        }
    }
}


/// The value that `key` orders by.
pub open spec fn sort_value(created_at: i64, likes: u64, key: SortKey) -> int {
    match key {
        SortKey::MostRecentFirst => created_at as int,
        SortKey::MostLikedFirst => likes as int,
    }
}

/// Record `a` is listed before record `b`: its sort value is larger, or the
/// values are equal and its identifier is smaller.
pub open spec fn comes_before(a: Record, b: Record, key: SortKey) -> bool {
    let va = sort_value(a.created_at, a.likes, key);
    let vb = sort_value(b.created_at, b.likes, key);
    va > vb || (va == vb && a.id < b.id)
}

/// The same order on views.
pub open spec fn view_comes_before(a: RecordView, b: RecordView, key: SortKey) -> bool {
    let va = sort_value(a.created_at, a.likes, key);
    let vb = sort_value(b.created_at, b.likes, key);
    va > vb || (va == vb && a.id < b.id)
}

/// Every record of `t` comes before every later one.
pub open spec fn sorted_by(t: Seq<Record>, key: SortKey) -> bool {
    forall|i: int, j: int| 0 <= i < j < t.len() ==> comes_before(t[i], t[j], key)
}

/// `s` and `t` hold the same records, each exactly once: `t` is a reordering of `s`.
pub open spec fn same_records(s: Seq<Record>, t: Seq<Record>) -> bool {
    &&& s.no_duplicates()
    &&& t.no_duplicates()
    &&& s.len() == t.len()
    &&& forall|x: Record| s.contains(x) <==> t.contains(x)
}

/// The page size a listing uses: at least one, at most `MAX_PAGE_SIZE`.
pub open spec fn effective_page_size(page_size: u64) -> u64 {
    if page_size == 0 {
        1
    } else if page_size > MAX_PAGE_SIZE {
        MAX_PAGE_SIZE
    } else {
        page_size
    }
}

/// `n / d`, rounded up.
pub open spec fn ceil_div(n: int, d: int) -> int {
    (n + d - 1) / d
}

/// The views of the records on page `page` (counted from zero) of `t`, pages
/// holding `size` records; empty beyond the last page.
pub open spec fn page_of(t: Seq<Record>, page: u64, size: u64) -> Seq<RecordView> {
    let start = page * size;
    if start >= t.len() {
        Seq::empty()
    } else {
        let end = if start + size < t.len() {
            start + size
        } else {
            t.len() as int
        };
        t.subrange(start, end).map_values(|r: Record| view_of(r))
    }
}

/// The order `key` compares two records that it tells apart by identifier alone.
proof fn lemma_total(a: Record, b: Record, key: SortKey)
    requires
        a.id != b.id,
    ensures
        comes_before(a, b, key) || comes_before(b, a, key),
{
}

/// Counting up from a quotient: the remainder decides the rounding.
proof fn lemma_ceil_div(n: int, d: int)
    requires
        n >= 0,
        d > 0,
    ensures
        ceil_div(n, d) == n / d + if n % d == 0 {
            0int
        } else {
            1int
        },
{
    assert(ceil_div(n, d) == n / d + if n % d == 0 {
        0int
    } else {
        1int
    }) by (nonlinear_arith)
        requires
            n >= 0,
            d > 0,
    ;
}

/// Whether record `a` is listed before record `b`.
fn precedes(a: &Record, b: &Record, key: SortKey) -> (r: bool)
    ensures
        r == comes_before(*a, *b, key),
{
    match key {
        SortKey::MostRecentFirst => a.created_at > b.created_at || (a.created_at == b.created_at
            && a.id < b.id),
        SortKey::MostLikedFirst => a.likes > b.likes || (a.likes == b.likes && a.id < b.id),
    }
}

impl RecordStore {
    /// The positions of all records, in the order of `key`.
    fn sorted_positions(&self, key: SortKey) -> (idx: Vec<usize>)
        requires
            self.wf(),
        ensures
            idx@.len() == self@.len(),
            forall|k: int| 0 <= k < idx@.len() ==> idx@[k] < self@.len(),
            forall|m: usize| m < self@.len() ==> #[trigger] idx@.contains(m),
            forall|a: int, b: int|
                0 <= a < b < idx@.len() ==> comes_before(
                    self@[idx@[a] as int],
                    self@[idx@[b] as int],
                    key,
                ),
    {
        let n = self.records.len();
        let mut out: Vec<usize> = Vec::new();
        let mut j: usize = 0;
        while j < n
            invariant
                n == self@.len(),
                self.wf(),
                j <= n,
                out@.len() == j,
                forall|k: int| 0 <= k < out@.len() ==> out@[k] < j,
                forall|m: usize| m < j ==> #[trigger] out@.contains(m),
                forall|a: int, b: int|
                    0 <= a < b < out@.len() ==> comes_before(
                        self@[out@[a] as int],
                        self@[out@[b] as int],
                        key,
                    ),
            decreases n - j,
        {
            let mut p: usize = 0;
            while p < out.len() && !precedes(&self.records[j], &self.records[out[p]], key)
                invariant
                    n == self@.len(),
                    self.wf(),
                    j < n,
                    p <= out@.len(),
                    forall|k: int| 0 <= k < out@.len() ==> out@[k] < j,
                    forall|k: int|
                        0 <= k < p ==> comes_before(self@[out@[k] as int], self@[j as int], key),
                decreases out@.len() - p,
            {
                proof {
                    lemma_total(self@[out@[p as int] as int], self@[j as int], key);
                }
                p = p + 1;
            }
            let ghost prev = out@;
            proof {
                if p < prev.len() {
                    assert(comes_before(self@[j as int], self@[prev[p as int] as int], key));
                }
            }
            out.insert(p, j);
            proof {
                let s = self@;
                assert(out@ == prev.insert(p as int, j));
                assert forall|a: int, b: int| 0 <= a < b < out@.len() implies comes_before(
                    s[out@[a] as int],
                    s[out@[b] as int],
                    key,
                ) by {
                    if b < p {
                    } else if b == p {
                    } else if a < p {
                        assert(out@[b] == prev[b - 1]);
                    } else if a == p {
                        assert(out@[b] == prev[b - 1]);
                        if b - 1 > p {
                            assert(comes_before(s[prev[p as int] as int], s[prev[b - 1] as int], key));
                        }
                    } else {
                        assert(out@[a] == prev[a - 1]);
                        assert(out@[b] == prev[b - 1]);
                    }
                }
                assert forall|m: usize| m < j + 1 implies #[trigger] out@.contains(m) by {
                    if m == j {
                        assert(out@[p as int] == j);
                    } else {
                        assert(prev.contains(m));
                        let k = choose|k: int| 0 <= k < prev.len() && prev[k] == m;
                        if k < p {
                            assert(out@[k] == prev[k]);
                        } else {
                            assert(out@[k + 1] == prev[k]);
                        }
                    }
                }
            }
            j = j + 1;
        }
        out
    }

    /// Page `page` (counted from zero) of all records in the order of `key`.
    /// The page size is `page_size` brought into `1..=MAX_PAGE_SIZE`; a page
    /// beyond the last is empty. Counters are read as they stand at the call.
    pub fn list(&self, key: SortKey, page: u64, page_size: u64) -> (r: ListResult)
        requires
            self.wf(),
        ensures
            r.total_count == self@.len(),
            r.total_pages == ceil_div(self@.len() as int, effective_page_size(page_size) as int),
            exists|t: Seq<Record>|
                same_records(self@, t) && sorted_by(t, key) && r.items@ == page_of(
                    t,
                    page,
                    effective_page_size(page_size),
                ),
            forall|i: int, j: int|
                0 <= i < j < r.items@.len() ==> view_comes_before(r.items@[i], r.items@[j], key),
    {
        let idx = self.sorted_positions(key);
        let ghost t = idx@.map_values(|i: usize| self@[i as int]);
        let n = self.records.len();
        proof {
            assert forall|x: Record| self@.contains(x) implies t.contains(x) by {
                let m = choose|m: int| 0 <= m < self@.len() && self@[m] == x;
                assert(idx@.contains(m as usize));
                let k = choose|k: int| 0 <= k < idx@.len() && idx@[k] == m as usize;
                assert(t[k] == x);
            }
            assert forall|x: Record| t.contains(x) implies self@.contains(x) by {
                let k = choose|k: int| 0 <= k < t.len() && t[k] == x;
                assert(self@[idx@[k] as int] == x);
            }
            assert(self@.no_duplicates()) by {
                assert forall|a: int, b: int|
                    0 <= a < self@.len() && 0 <= b < self@.len() && a != b implies self@[a]
                    != self@[b] by {
                    assert(self@[a].id != self@[b].id);
                }
            }
            assert(t.no_duplicates()) by {
                assert forall|a: int, b: int|
                    0 <= a < t.len() && 0 <= b < t.len() && a != b implies t[a] != t[b] by {
                    if a < b {
                        assert(comes_before(self@[idx@[a] as int], self@[idx@[b] as int], key));
                    } else {
                        assert(comes_before(self@[idx@[b] as int], self@[idx@[a] as int], key));
                    }
                }
            }
            assert(same_records(self@, t));
            assert(sorted_by(t, key));
        }
        let size: u64 = if page_size == 0 {
            1
        } else if page_size > MAX_PAGE_SIZE {
            MAX_PAGE_SIZE
        } else {
            page_size
        };
        let total = n as u64;
        let q = total / size;
        let total_pages = if total % size == 0 {
            q
        } else {
            assert(q < 0xffff_ffff_ffff_ffff) by (nonlinear_arith)
                requires
                    q == total / size,
                    total % size != 0,
                    1 <= size,
                    total <= 0xffff_ffff_ffff_ffff,
            ;
            q + 1
        };
        proof {
            lemma_ceil_div(total as int, size as int);
        }
        assert((page as int) * (size as int) <= 0xffff_ffff_ffff_ffff * 50) by (nonlinear_arith)
            requires
                size <= 50,
        ;
        let start: u128 = (page as u128) * (size as u128);
        let mut items: Vec<RecordView> = Vec::new();
        if start < n as u128 {
            let first = start as usize;
            let last: usize = if start + (size as u128) < n as u128 {
                (start + (size as u128)) as usize
            } else {
                n
            };
            let mut k: usize = first;
            while k < last
                invariant
                    first <= k <= last <= n,
                    n == self@.len(),
                    idx@.len() == n,
                    forall|q: int| 0 <= q < idx@.len() ==> idx@[q] < self@.len(),
                    t == idx@.map_values(|i: usize| self@[i as int]),
                    items@ == t.subrange(first as int, k as int).map_values(|r: Record| view_of(r)),
                decreases last - k,
            {
                let v = self.records[idx[k]].project();
                items.push(v);
                k = k + 1;
                proof {
                    assert(items@ =~= t.subrange(first as int, k as int).map_values(
                        |r: Record| view_of(r),
                    ));
                }
            }
            proof {
                assert(items@ == page_of(t, page, size));
            }
        } else {
            proof {
                assert(items@ =~= page_of(t, page, size));
            }
        }
        proof {
            assert(effective_page_size(page_size) == size);
            assert forall|i: int, j: int|
                0 <= i < j < items@.len() implies view_comes_before(items@[i], items@[j], key) by {
                let st = (page * size) as int;
                assert(items@[i] == view_of(t[st + i]));
                assert(items@[j] == view_of(t[st + j]));
                assert(comes_before(t[st + i], t[st + j], key));
            }
        }
        ListResult { items, total_count: total, total_pages }
    }

    /// Creates a record with a fresh random identifier, the current time as its
    /// creation time and both counters at zero, and returns the identifier.
    /// Only a random identifier that is already in use makes it fail, and then
    /// nothing is stored; on an empty store it always succeeds.
    pub fn create_record(
        &mut self,
        title: String,
        creator: String,
        description: String,
        locator: String,
    ) -> (r: Result<RecordId, StoreError>)
        requires
            old(self).wf(),
        ensures
            final(self).wf(),
            match r {
                Ok(id) => !has_id(old(self)@, id) && exists|t: i64|
                    final(self)@ == old(self)@.push(
                        fresh_record(id, NewRecord { title, creator, description, locator }, t),
                    ),
                Err(e) => e == StoreError::IdTaken && final(self)@ == old(self)@,
            },
            r is Err ==> exists|k: RecordId| has_id(old(self)@, k),
            old(self)@.len() == 0 ==> r is Ok,
    {
        let id = random_record_id();
        let created_at = now_millis();
        let fields = NewRecord { title, creator, description, locator };
        let ghost f = fields;
        let r = self.insert(id, fields, created_at);
        proof {
            if r is Ok {
                assert(self@ == old(self)@.push(fresh_record(id, f, created_at)));
            }
        }
        r
    }

    /// `list` with the order named by `sort_key` (see `SortKey::parse`); an
    /// unknown name is an `InvalidArgument`.
    pub fn list_records(&self, sort_key: &str, page: u64, page_size: u64) -> (r: Result<
        ListResult,
        StoreError,
    >)
        requires
            self.wf(),
        ensures
            sort_key_named(sort_key@) is None ==> r == Err::<ListResult, StoreError>(
                StoreError::InvalidArgument,
            ),
            sort_key_named(sort_key@) is Some ==> r is Ok && {
                let key = sort_key_named(sort_key@)->Some_0;
                let res = r->Ok_0;
                &&& res.total_count == self@.len()
                &&& res.total_pages == ceil_div(
                    self@.len() as int,
                    effective_page_size(page_size) as int,
                )
                &&& exists|t: Seq<Record>|
                    same_records(self@, t) && sorted_by(t, key) && res.items@ == page_of(
                        t,
                        page,
                        effective_page_size(page_size),
                    )
                &&& forall|i: int, j: int|
                    0 <= i < j < res.items@.len() ==> view_comes_before(
                        res.items@[i],
                        res.items@[j],
                        key,
                    )
            },
    {
        match SortKey::parse(sort_key) {
            Ok(key) => Ok(self.list(key, page, page_size)),
            Err(e) => Err(e),
        }
    }
}

/// The order a name stands for: "recent" for most recent first, "popular" for
/// most liked first.
pub open spec fn sort_key_named(name: Seq<char>) -> Option<SortKey> {
    if name == "recent"@ {
        Some(SortKey::MostRecentFirst)
    } else if name == "popular"@ {
        Some(SortKey::MostLikedFirst)
    } else {
        None
    }
}

/// Whether two strings hold the same characters.
fn same_text(a: &str, b: &str) -> (r: bool)
    ensures
        r == (a@ == b@),
{
    let n = a.unicode_len();
    if n != b.unicode_len() {
        return false;
    }
    let mut i: usize = 0;
    while i < n
        invariant
            n == a@.len(),
            n == b@.len(),
            i <= n,
            forall|k: int| 0 <= k < i ==> a@[k] == b@[k],
        decreases n - i,
    {
        if a.get_char(i) != b.get_char(i) {
            return false;
        }
        i = i + 1;
    }
    proof {
        assert(a@ =~= b@);
    }
    true
}

impl SortKey {
    /// The order that `name` stands for; an unknown name is an `InvalidArgument`.
    pub fn parse(name: &str) -> (r: Result<SortKey, StoreError>)
        ensures
            match sort_key_named(name@) {
                Some(k) => r == Ok::<SortKey, StoreError>(k),
                None => r == Err::<SortKey, StoreError>(StoreError::InvalidArgument),
            },
    {
        if same_text(name, "recent") {
            Ok(SortKey::MostRecentFirst)
        } else if same_text(name, "popular") {
            Ok(SortKey::MostLikedFirst)
        } else {
            Err(StoreError::InvalidArgument)
        }
    }
}

} // verus!
