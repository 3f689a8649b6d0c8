//! The single-table URL store: one record per shortened URL, looked up by
//! its code, with an atomically incremented visit counter.
//!
//! The table is held as a vector of records with a well-formedness
//! invariant: codes are unique, record ids are unique and below the next
//! id to be assigned, and every stored code and target satisfies the
//! length bounds of the schema (codes 1 to 20 characters, targets up to
//! 5000 characters).

use vstd::prelude::*;

verus! {

/// The persisted record: one shortened URL.
#[derive(Debug)]
pub struct Url {
    /// Assigned by the store, unique, monotonically increasing.
    pub id: u64,
    /// The public lookup key, case-sensitive, unique.
    pub code: String,
    /// The destination to redirect to.
    pub url: String,
    /// Set at insertion, immutable afterwards.
    pub create_time: i64,
    /// Number of redirect-causing lookups; starts at 0, only grows.
    pub count: u64,
}

/// The mathematical value of a [`Url`] record.
pub ghost struct UrlV {
    pub id: u64,
    pub code: Seq<char>,
    pub url: Seq<char>,
    pub create_time: i64,
    pub count: u64,
}

impl View for Url {
    type V = UrlV;

    open spec fn view(&self) -> UrlV {
        UrlV {
            id: self.id,
            code: self.code@,
            url: self.url@,
            create_time: self.create_time,
            count: self.count,
        }
    }
}

/// A record to be inserted: the store itself assigns id, creation time
/// and the zero counter.
pub struct NewUrl<'a> {
    pub url: &'a str,
    pub code: &'a str,
}

impl<'a> NewUrl<'a> {
    pub fn new(url: &'a str, code: &'a str) -> (r: Self)
        ensures
            r.url == url,
            r.code == code,
    {
        NewUrl { url, code }
    }
}

/// Why an insertion or a counter update was refused. Storage here never
/// loses a write for any other reason, so these are the only variants.
#[derive(Clone, Copy, Debug, PartialEq, Eq, Structural)]
pub enum StoreError {
    /// The code is already taken by an existing record.
    DuplicateCode,
    /// The record does not fit the schema (length bounds, exhausted id
    /// space) or, for a counter update, the id is unknown or the counter
    /// cannot grow further.
    Invalid,
}

/// A stored code: 1 to 20 characters.
pub open spec fn valid_code(code: Seq<char>) -> bool {
    1 <= code.len() <= 20
}

/// A stored target URL: up to 5000 characters.
pub open spec fn valid_target(url: Seq<char>) -> bool {
    url.len() <= 5000
}

/// Some record in `s` carries this code.
pub open spec fn has_code(s: Seq<UrlV>, code: Seq<char>) -> bool {
    exists|i: int| 0 <= i < s.len() && s[i].code == code
}

/// The index of the first record in `s` carrying this code, scanning
/// from position `i`.
pub open spec fn find_code_from(s: Seq<UrlV>, code: Seq<char>, i: int) -> Option<int>
    decreases s.len() - i,
{
    if i < 0 || i >= s.len() {
        None
    } else if s[i].code == code {
        Some(i)
    } else {
        find_code_from(s, code, i + 1)
    }
}

/// The index of the first record in `s` carrying this code.
pub open spec fn find_code(s: Seq<UrlV>, code: Seq<char>) -> Option<int> {
    find_code_from(s, code, 0)
}

/// The codes of `s` are pairwise distinct.
pub open spec fn codes_unique(s: Seq<UrlV>) -> bool {
    forall|i: int, j: int| 0 <= i < j < s.len() ==> s[i].code != s[j].code
}

/// What `find_code_from` returns: the first match at or after `i`, or
/// nothing when no record from `i` on matches.
pub proof fn lemma_find_code_from_spec(s: Seq<UrlV>, code: Seq<char>, i: int)
    requires
        0 <= i,
    ensures
        match find_code_from(s, code, i) {
            Some(j) => i <= j < s.len() && s[j].code == code && (forall|k: int|
                i <= k < j ==> s[k].code != code),
            None => forall|k: int| i <= k < s.len() ==> s[k].code != code,
        },
    decreases s.len() - i,
{
    if i < s.len() && s[i].code != code {
        lemma_find_code_from_spec(s, code, i + 1);
    }
}

/// What `find_code` returns: the first record carrying the code, and
/// nothing exactly when no record carries it.
pub proof fn lemma_find_code_spec(s: Seq<UrlV>, code: Seq<char>)
    ensures
        match find_code(s, code) {
            Some(j) => 0 <= j < s.len() && s[j].code == code && (forall|k: int|
                0 <= k < j ==> s[k].code != code),
            None => !has_code(s, code),
        },
        find_code(s, code) is Some <==> has_code(s, code),
{
    lemma_find_code_from_spec(s, code, 0);
}

/// A scan that starts at or before a matching record finds some record.
pub proof fn lemma_find_code_from_finds(s: Seq<UrlV>, code: Seq<char>, lo: int, i: int)
    requires
        0 <= lo <= i < s.len(),
        s[i].code == code,
    ensures
        find_code_from(s, code, lo) is Some,
    decreases i - lo,
{
    if s[lo].code != code {
        lemma_find_code_from_finds(s, code, lo + 1, i);
    }
}

/// Two tables of equal codes are scanned alike.
pub proof fn lemma_find_code_from_same_codes(
    s1: Seq<UrlV>,
    s2: Seq<UrlV>,
    code: Seq<char>,
    lo: int,
)
    requires
        s1.len() == s2.len(),
        forall|k: int| 0 <= k < s1.len() ==> s1[k].code == s2[k].code,
    ensures
        find_code_from(s1, code, lo) == find_code_from(s2, code, lo),
    decreases s1.len() - lo,
{
    if 0 <= lo < s1.len() && s1[lo].code != code {
        lemma_find_code_from_same_codes(s1, s2, code, lo + 1);
    }
}

/// The single logical table, with the next id to be assigned.
pub struct UrlStore {
    pub records: Vec<Url>,
    pub next_id: u64,
}

impl View for UrlStore {
    type V = Seq<UrlV>;

    open spec fn view(&self) -> Seq<UrlV> {
        self.records@.map_values(|r: Url| r@)
    }
}

impl UrlStore {
    /// The store's invariant: unique codes, unique ids below `next_id`,
    /// and every record within the schema's length bounds.
    pub open spec fn wf(&self) -> bool {
        &&& codes_unique(self@)
        &&& (forall|i: int, j: int| 0 <= i < j < self@.len() ==> self@[i].id != self@[j].id)
        &&& (forall|i: int| 0 <= i < self@.len() ==> self@[i].id < self.next_id)
        &&& (forall|i: int|
            0 <= i < self@.len() ==> valid_code(self@[i].code) && valid_target(self@[i].url))
    }

    /// Whether inserting this code and target must succeed.
    pub open spec fn can_insert(&self, code: Seq<char>, url: Seq<char>) -> bool {
        &&& valid_code(code)
        &&& valid_target(url)
        &&& self.next_id < u64::MAX
        &&& !has_code(self@, code)
    }

    pub fn new() -> (s: UrlStore)
        ensures
            s.wf(),
            s@ =~= Seq::<UrlV>::empty(),
            s.next_id == 1,
    {
        UrlStore { records: Vec::new(), next_id: 1 }
    }

    /// Exact, case-sensitive lookup by code; no counter update.
    #[verifier::loop_isolation(false)]
    pub fn find_by_code(&self, code: &str) -> (r: Option<Url>)
        ensures
            match r {
                Some(rec) => find_code(self@, code@) matches Some(i) && rec@ == self@[i],
                None => find_code(self@, code@) is None,
            },
            r is Some <==> has_code(self@, code@),
    {
        proof {
            lemma_find_code_spec(self@, code@);
        }
        let owned: String = code.to_owned();
        let n: usize = self.records.len();
        let mut i: usize = 0;
        while i < n
            invariant
                n == self.records@.len(),
                i <= n,
                owned@ == code@,
                find_code_from(self@, code@, 0) == find_code_from(self@, code@, i as int),
            decreases n - i,
        {
            assert(self@[i as int] == self.records@[i as int]@);
            if self.records[i].code == owned {
                let rec = &self.records[i];
                return Some(Url {
                    id: rec.id,
                    code: rec.code.clone(),
                    url: rec.url.clone(),
                    create_time: rec.create_time,
                    count: rec.count,
                });
            }
            i = i + 1;
        }
        None
    }

    /// Inserts a new record with a zero counter and the given creation
    /// time. Refuses a duplicate code, a record outside the schema's
    /// bounds, and an exhausted id space; on refusal the table is
    /// untouched.
    pub fn insert(&mut self, new_url: &NewUrl<'_>, now: i64) -> (r: Result<(), StoreError>)
        requires
            old(self).wf(),
        ensures
            final(self).wf(),
            r is Ok <==> old(self).can_insert(new_url.code@, new_url.url@),
            r is Ok ==> final(self)@ =~= old(self)@.push(
                (UrlV {
                    id: old(self).next_id,
                    code: new_url.code@,
                    url: new_url.url@,
                    create_time: now,
                    count: 0,
                }),
            ) && final(self).next_id == old(self).next_id + 1,
            r is Err ==> *final(self) == *old(self),
            r == Result::<(), StoreError>::Err(StoreError::Invalid) <==> !(valid_code(new_url.code@)
                && valid_target(new_url.url@) && old(self).next_id < u64::MAX),
            r == Result::<(), StoreError>::Err(StoreError::DuplicateCode) <==> (valid_code(
                new_url.code@,
            ) && valid_target(new_url.url@) && old(self).next_id < u64::MAX && has_code(
                old(self)@,
                new_url.code@,
            )),
    {
        let code_len = new_url.code.unicode_len();
        let url_len = new_url.url.unicode_len();
        if code_len < 1 || code_len > 20 || url_len > 5000 || self.next_id == u64::MAX {
            return Err(StoreError::Invalid);
        }
        if self.find_by_code(new_url.code).is_some() {
            return Err(StoreError::DuplicateCode);
        }
        proof {
            lemma_find_code_spec(self@, new_url.code@);
        }
        let rec = Url {
            id: self.next_id,
            code: new_url.code.to_owned(),
            url: new_url.url.to_owned(),
            create_time: now,
            count: 0,
        };
        let ghost pre = self@;
        self.records.push(rec);
        self.next_id = self.next_id + 1;
        proof {
            assert(self@ =~= pre.push(
                (UrlV {
                    id: old(self).next_id,
                    code: new_url.code@,
                    url: new_url.url@,
                    create_time: now,
                    count: 0,
                }),
            ));
        }
        Ok(())
    }

    /// Atomically increments the visit counter of the record with this
    /// id and returns the updated record. Refuses an unknown id and a
    /// counter that cannot grow further; on refusal the table is
    /// untouched.
    #[verifier::loop_isolation(false)]
    pub fn record_visit(&mut self, id: u64) -> (r: Result<Url, StoreError>)
        requires
            old(self).wf(),
        ensures
            final(self).wf(),
            final(self).next_id == old(self).next_id,
            r is Ok <==> exists|i: int|
                0 <= i < old(self)@.len() && old(self)@[i].id == id && old(self)@[i].count
                    < u64::MAX,
            r matches Ok(rec) ==> exists|i: int|
                0 <= i < old(self)@.len() && #[trigger] old(self)@[i].id == id && rec@ == bumped(
                    old(self)@[i],
                ) && final(self)@ =~= old(self)@.update(i, bumped(old(self)@[i])),
            r is Err ==> *final(self) == *old(self),
    {
        let n: usize = self.records.len();
        let mut i: usize = 0;
        while i < n
            invariant
                *self == *old(self),
                n == self.records@.len(),
                i <= n,
                forall|k: int| 0 <= k < i ==> self@[k].id != id,
            decreases n - i,
        {
            assert(self@[i as int] == self.records@[i as int]@);
            if self.records[i].id == id {
                proof {
                    assert forall|j: int|
                        0 <= j < self@.len() && self@[j].id == id implies j == i as int by {
                        if j < i as int {
                            assert(self@[j].id != self@[i as int].id);
                        } else if j > i as int {
                            assert(self@[i as int].id != self@[j].id);
                        }
                    }
                }
                if self.records[i].count == u64::MAX {
                    return Err(StoreError::Invalid);
                }
                let ghost pre = self@;
                let new_count = self.records[i].count + 1;
                self.records[i].count = new_count;
                assert(self@[i as int] == self.records@[i as int]@);
                let rec = &self.records[i];
                let out = Url {
                    id: rec.id,
                    code: rec.code.clone(),
                    url: rec.url.clone(),
                    create_time: rec.create_time,
                    count: rec.count,
                };
                proof {
                    assert(self@ =~= pre.update(i as int, bumped(pre[i as int])));
                }
                return Ok(out);
            }
            i = i + 1;
        }
        Err(StoreError::Invalid)
    }
}

/// The record after one more visit.
pub open spec fn bumped(r: UrlV) -> UrlV {
    UrlV { count: (r.count + 1) as u64, ..r }
}

} // verus!
