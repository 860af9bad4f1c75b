//! The memoizing image cache: "URL -> (decoded image, brightness
//! statistics)", bounded in entry count and in entry age.
//!
//! Recency is the position in the record sequence: the least recently
//! used entry stands first, the most recently used last, and both `get`
//! and `put` move the touched key to the end.  An over-capacity insert
//! evicts the first record; a lookup past the entry's time to live evicts
//! that entry and counts as a miss.  Entries are handed out as copies so
//! no caller holds the cache while it works; the caller supplies the
//! clock reading, so the cache itself performs no I/O.

use vstd::prelude::*;
use crate::brightness::BrightnessStats;
use crate::image_data::DecodedImage;

verus! {

/// What the cache memoizes for one URL.
pub struct CacheEntry {
    pub image: DecodedImage,
    pub stats: BrightnessStats,
}

/// Mathematical shape of a cache entry.
pub struct EntryV {
    pub width: u32,
    pub height: u32,
    pub pixels: Seq<u8>,
    pub average: u32,
}

/// Mathematical shape of one cache record.
pub struct RecordV {
    pub key: Seq<char>,
    pub entry: EntryV,
    pub inserted: u64,
}

impl View for CacheEntry {
    type V = EntryV;

    open spec fn view(&self) -> EntryV {
        EntryV {
            width: self.image.width,
            height: self.image.height,
            pixels: self.image.pixels@,
            average: self.stats.average,
        }
    }
}

impl CacheEntry {
    /// Copy the entry out of the cache.
    pub fn duplicate(&self) -> (r: CacheEntry)
        ensures
            r@ == self@,
    {
        CacheEntry { image: self.image.duplicate(), stats: BrightnessStats { average: self.stats.average } }
    }
}

struct CacheRecord {
    key: String,
    entry: CacheEntry,
    inserted: u64,
}

impl View for CacheRecord {
    type V = RecordV;

    closed spec fn view(&self) -> RecordV {
        RecordV { key: self.key@, entry: self.entry@, inserted: self.inserted }
    }
}

/// Whether any record carries `key`.
pub open spec fn has_key(s: Seq<RecordV>, key: Seq<char>) -> bool {
    exists|i: int| 0 <= i < s.len() && s[i].key == key
}

/// The index of the record carrying `key` (unique under [`keys_unique`]).
pub open spec fn idx_of(s: Seq<RecordV>, key: Seq<char>) -> int {
    choose|i: int| 0 <= i < s.len() && s[i].key == key
}

/// No two records carry the same key.
pub open spec fn keys_unique(s: Seq<RecordV>) -> bool {
    forall|i: int, j: int| 0 <= i < j < s.len() ==> (#[trigger] s[i]).key != (#[trigger] s[j]).key
}

/// Whether a record is still within its time to live at clock reading
/// `now`.
pub open spec fn fresh_at(rec: RecordV, now: u64, ttl: u64) -> bool {
    now as int <= rec.inserted as int + ttl as int
}

/// The concurrent memoizing store.  Internally a recency-ordered record
/// sequence; callers wrap it in their runtime's lock and keep the
/// critical sections to these bookkeeping calls.
pub struct ImageCache {
    records: Vec<CacheRecord>,
    capacity: usize,
    ttl: u64,
}

impl View for ImageCache {
    type V = Seq<RecordV>;

    closed spec fn view(&self) -> Seq<RecordV> {
        self.records@.map_values(|r: CacheRecord| r@)
    }
}

impl ImageCache {
    /// Bounded size, unique keys.
    pub closed spec fn wf(&self) -> bool {
        1 <= self.capacity && self@.len() <= self.capacity && keys_unique(self@)
    }

    /// Maximum number of entries.
    pub closed spec fn spec_capacity(&self) -> usize {
        self.capacity
    }

    /// Maximum entry age, in the caller's clock units.
    pub closed spec fn spec_ttl(&self) -> u64 {
        self.ttl
    }

    /// An empty cache holding at most `capacity` entries, each for at
    /// most `ttl` clock units.
    pub fn new(capacity: usize, ttl: u64) -> (r: ImageCache)
        requires
            1 <= capacity,
        ensures
            r@ =~= Seq::<RecordV>::empty(),
            r.wf(),
            r.spec_capacity() == capacity,
            r.spec_ttl() == ttl,
    {
        let r = ImageCache { records: Vec::new(), capacity, ttl };
        proof {
            assert(r@ =~= Seq::<RecordV>::empty());
        }
        r
    }

    /// Number of live records.
    pub fn len(&self) -> (r: usize)
        ensures
            r == self@.len(),
    {
        self.records.len()
    }

    fn find(&self, url: &String) -> (r: Option<usize>)
        requires
            self.wf(),
        ensures
            r matches Some(i) ==> i < self@.len() && self@[i as int].key == url@
                && i as int == idx_of(self@, url@),
            r is None ==> !has_key(self@, url@),
    {
        let mut i: usize = 0;
        let n = self.records.len();
        while i < n
            invariant
                i <= n == self@.len(),
                self.wf(),
                forall|j: int| 0 <= j < i ==> (#[trigger] self@[j]).key != url@,
            decreases n - i,
        {
            if self.records[i].key.eq(url) {
                proof {
                    let v = self@;
                    assert(v[i as int].key == url@);
                    let w = idx_of(v, url@);
                    assert(v[w].key == url@);
                    if w != i as int {
                        assert(v[w].key != v[i as int].key);
                    }
                }
                return Some(i);
            }
            i += 1;
        }
        None
    }

    /// Look `url` up at clock reading `now`.  A fresh hit is returned as
    /// a copy and moved to the most recent position; a hit past its time
    /// to live is evicted and reported as a miss; a miss changes nothing.
    pub fn get(&mut self, url: &String, now: u64) -> (r: Option<CacheEntry>)
        requires
            old(self).wf(),
        ensures
            final(self).wf(),
            final(self).spec_capacity() == old(self).spec_capacity(),
            final(self).spec_ttl() == old(self).spec_ttl(),
            !has_key(old(self)@, url@) ==> r is None && final(self)@ == old(self)@,
            has_key(old(self)@, url@) ==> ({
                let i = idx_of(old(self)@, url@);
                let rec = old(self)@[i];
                if fresh_at(rec, now, old(self).spec_ttl()) {
                    r matches Some(e) && e@ == rec.entry
                        && final(self)@ == old(self)@.remove(i).push(rec)
                } else {
                    r is None && final(self)@ == old(self)@.remove(i)
                }
            }),
    {
        let found = self.find(url);
        match found {
            None => None,
            Some(i) => {
                let ghost v0 = self@;
                let ghost gi = i as int;
                let inserted = self.records[i].inserted;
                let is_fresh = (now as u128) <= (inserted as u128) + (self.ttl as u128);
                if is_fresh {
                    let e = self.records[i].entry.duplicate();
                    let rec = self.records.remove(i);
                    self.records.push(rec);
                    proof {
                        assert(self@ =~= v0.remove(gi).push(v0[gi]));
                        lemma_keys_unique_remove(v0, gi);
                        assert(keys_unique(v0.remove(gi).push(v0[gi]))) by {
                            lemma_keys_unique_after_push(v0.remove(gi), v0[gi], v0, gi);
                        }
                    }
                    Some(e)
                } else {
                    self.records.remove(i);
                    proof {
                        assert(self@ =~= v0.remove(gi));
                        lemma_keys_unique_remove(v0, gi);
                    }
                    None
                }
            },
        }
    }

    /// Insert or replace the entry for `url` at clock reading `now`,
    /// making it the most recent record.  A full cache first evicts its
    /// least recently used record, which stands first.
    pub fn put(&mut self, url: &String, entry: CacheEntry, now: u64)
        requires
            old(self).wf(),
        ensures
            final(self).wf(),
            final(self).spec_capacity() == old(self).spec_capacity(),
            final(self).spec_ttl() == old(self).spec_ttl(),
            ({
                let newrec = RecordV { key: url@, entry: entry@, inserted: now };
                if has_key(old(self)@, url@) {
                    final(self)@ == old(self)@.remove(idx_of(old(self)@, url@)).push(newrec)
                } else if old(self)@.len() < old(self).spec_capacity() {
                    final(self)@ == old(self)@.push(newrec)
                } else {
                    final(self)@ == old(self)@.drop_first().push(newrec)
                }
            }),
    {
        let ghost v0 = self@;
        let ghost newrec = RecordV { key: url@, entry: entry@, inserted: now };
        let found = self.find(url);
        match found {
            Some(i) => {
                let ghost gi = i as int;
                self.records.remove(i);
                proof {
                    assert(self@ =~= v0.remove(gi));
                    lemma_keys_unique_remove(v0, gi);
                    assert(forall|j: int| 0 <= j < v0.remove(gi).len()
                        ==> (#[trigger] v0.remove(gi)[j]).key != url@) by {
                        lemma_no_key_after_remove(v0, gi, url@);
                    }
                }
            },
            None => {
                if self.records.len() == self.capacity {
                    let ghost gi = 0int;
                    self.records.remove(0);
                    proof {
                        assert(self@ =~= v0.remove(0));
                        assert(v0.remove(0) =~= v0.drop_first());
                        lemma_keys_unique_remove(v0, 0);
                    }
                }
            },
        }
        let ghost v1 = self@;
        let rec = CacheRecord { key: url.clone(), entry, inserted: now };
        self.records.push(rec);
        proof {
            assert(self@ =~= v1.push(newrec));
            assert forall|i: int, j: int| 0 <= i < j < self@.len()
                implies (#[trigger] self@[i]).key != (#[trigger] self@[j]).key by {
                if j == self@.len() - 1 {
                    assert(self@[i] == v1[i]);
                    assert(v1[i].key != url@);
                } else {
                    assert(self@[i] == v1[i] && self@[j] == v1[j]);
                }
            }
        }
    }
}

proof fn lemma_keys_unique_push_fresh(s: Seq<RecordV>, rec: RecordV)
    requires
        keys_unique(s),
        !has_key(s, rec.key),
    ensures
        keys_unique(s.push(rec)),
{
    assert forall|a: int, b: int| 0 <= a < b < s.push(rec).len()
        implies (#[trigger] s.push(rec)[a]).key != (#[trigger] s.push(rec)[b]).key by {
        if b == s.push(rec).len() - 1 {
            assert(s.push(rec)[a] == s[a]);
        } else {
            assert(s.push(rec)[a] == s[a] && s.push(rec)[b] == s[b]);
        }
    }
}

/// Law: a lookup that finds a record strictly past its time to live
/// leaves a cache without that key, and no other record is touched — so
/// the stale entry is never served again: the next lookup of the key is
/// a miss, the caller fetches anew, and the re-insert follows
/// [`ImageCache::put`].  `s2` is the record sequence that
/// [`ImageCache::get`] leaves behind in that case.
pub proof fn lemma_expired_lookup_evicts(s: Seq<RecordV>, key: Seq<char>, s2: Seq<RecordV>)
    requires
        keys_unique(s),
        has_key(s, key),
        s2 == s.remove(idx_of(s, key)),
    ensures
        s2.len() == s.len() - 1,
        !has_key(s2, key),
        forall|j: int| 0 <= j < s.len() && j != idx_of(s, key)
            ==> has_key(s2, (#[trigger] s[j]).key),
{
    let i = idx_of(s, key);
    assert(0 <= i < s.len() && s[i].key == key);
    lemma_no_key_after_remove(s, i, key);
    assert forall|j: int| 0 <= j < s.len() && j != i
        implies has_key(s2, (#[trigger] s[j]).key) by {
        if j < i {
            assert(s2[j] == s[j]);
        } else {
            assert(s2[j - 1] == s[j]);
        }
    }
}

/// Law: an insert into a full cache with a new key evicts exactly the
/// least recently used record — the one standing first — and no other:
/// its key is gone, every other key survives, and the count is unchanged.
/// `s2` is the record sequence that [`ImageCache::put`] leaves behind in
/// that case.
pub proof fn lemma_full_insert_evicts_lru(s: Seq<RecordV>, newrec: RecordV, s2: Seq<RecordV>)
    requires
        keys_unique(s),
        s.len() >= 1,
        !has_key(s, newrec.key),
        s2 == s.drop_first().push(newrec),
    ensures
        s2.len() == s.len(),
        !has_key(s2, s[0].key),
        forall|j: int| 1 <= j < s.len() ==> has_key(s2, (#[trigger] s[j]).key),
        has_key(s2, newrec.key),
{
    assert(s[0].key != newrec.key);
    assert forall|m: int| 0 <= m < s2.len() implies (#[trigger] s2[m]).key != s[0].key by {
        if m < s2.len() - 1 {
            assert(s2[m] == s[m + 1]);
        } else {
            assert(s2[m] == newrec);
        }
    }
    assert forall|j: int| 1 <= j < s.len() implies has_key(s2, (#[trigger] s[j]).key) by {
        assert(s2[j - 1] == s[j]);
    }
    assert(s2[s2.len() - 1] == newrec);
}

/// Law: whichever of its three shapes an insert takes, the inserted
/// record stands afterward as the most recent one, is the unique carrier
/// of its key, and keeps its insertion time — so a lookup within the time
/// to live finds exactly the inserted entry, per [`ImageCache::get`].
pub proof fn lemma_put_places_record(s: Seq<RecordV>, newrec: RecordV, s2: Seq<RecordV>, cap: int)
    requires
        keys_unique(s),
        1 <= cap,
        s.len() <= cap,
        ({
            if has_key(s, newrec.key) {
                s2 == s.remove(idx_of(s, newrec.key)).push(newrec)
            } else if s.len() < cap {
                s2 == s.push(newrec)
            } else {
                s2 == s.drop_first().push(newrec)
            }
        }),
    ensures
        keys_unique(s2),
        has_key(s2, newrec.key),
        idx_of(s2, newrec.key) == s2.len() - 1,
        s2[idx_of(s2, newrec.key)] == newrec,
{
    if has_key(s, newrec.key) {
        let i = idx_of(s, newrec.key);
        assert(0 <= i < s.len() && s[i].key == newrec.key);
        lemma_keys_unique_remove(s, i);
        lemma_no_key_after_remove(s, i, newrec.key);
        lemma_keys_unique_push_fresh(s.remove(i), newrec);
    } else if s.len() < cap {
        lemma_keys_unique_push_fresh(s, newrec);
    } else {
        assert(s.drop_first() =~= s.remove(0));
        lemma_keys_unique_remove(s, 0);
        assert forall|j: int| 0 <= j < s.remove(0).len()
            implies (#[trigger] s.remove(0)[j]).key != newrec.key by {
            assert(s.remove(0)[j] == s[j + 1]);
        }
        lemma_keys_unique_push_fresh(s.remove(0), newrec);
    }
    assert(s2[s2.len() - 1] == newrec);
    let w = idx_of(s2, newrec.key);
    assert(s2[w].key == newrec.key);
    if w != s2.len() - 1 {
        assert(s2[w].key != s2[s2.len() - 1].key);
    }
}

proof fn lemma_keys_unique_remove(s: Seq<RecordV>, i: int)
    requires
        keys_unique(s),
        0 <= i < s.len(),
    ensures
        keys_unique(s.remove(i)),
{
    assert forall|a: int, b: int| 0 <= a < b < s.remove(i).len()
        implies (#[trigger] s.remove(i)[a]).key != (#[trigger] s.remove(i)[b]).key by {
        let a0 = if a < i { a } else { a + 1 };
        let b0 = if b < i { b } else { b + 1 };
        assert(s.remove(i)[a] == s[a0]);
        assert(s.remove(i)[b] == s[b0]);
    }
}

proof fn lemma_no_key_after_remove(s: Seq<RecordV>, i: int, key: Seq<char>)
    requires
        keys_unique(s),
        0 <= i < s.len(),
        s[i].key == key,
    ensures
        forall|j: int| 0 <= j < s.remove(i).len() ==> (#[trigger] s.remove(i)[j]).key != key,
{
    assert forall|j: int| 0 <= j < s.remove(i).len()
        implies (#[trigger] s.remove(i)[j]).key != key by {
        let j0 = if j < i { j } else { j + 1 };
        assert(s.remove(i)[j] == s[j0]);
        if j0 < i {
            assert(s[j0].key != s[i].key);
        } else {
            assert(s[i].key != s[j0].key);
        }
    }
}

proof fn lemma_keys_unique_after_push(s: Seq<RecordV>, rec: RecordV, orig: Seq<RecordV>, i: int)
    requires
        keys_unique(orig),
        0 <= i < orig.len(),
        s == orig.remove(i),
        rec == orig[i],
    ensures
        keys_unique(s.push(rec)),
{
    lemma_keys_unique_remove(orig, i);
    lemma_no_key_after_remove(orig, i, orig[i].key);
    assert forall|a: int, b: int| 0 <= a < b < s.push(rec).len()
        implies (#[trigger] s.push(rec)[a]).key != (#[trigger] s.push(rec)[b]).key by {
        if b == s.push(rec).len() - 1 {
            assert(s.push(rec)[a] == s[a]);
            assert(s[a].key != orig[i].key);
        } else {
            assert(s.push(rec)[a] == s[a] && s.push(rec)[b] == s[b]);
        }
    }
}

} // verus!
