//! A byte-budgeted cache of synthesized audio with least-recently-used
//! eviction.
//!
//! Entries are kept in a vector ordered by recency of access: the first is
//! the least recently used, the last the most recently used. Reads and
//! writes both count as access.
//!
//! An entry's accounted size is the heap memory its key and audio own: the
//! UTF-8 length of each of the key's four strings and the length of the
//! audio. The gain is held inline and adds nothing.
use crate::request::{CacheKey, KeyModel};
use vstd::prelude::*;
use vstd::utf8::encode_utf8;

verus! {

/// The budget the service runs its cache with: 16 MiB.
pub const DEFAULT_CAPACITY: usize = 16 * 1024 * 1024;

pub type Entry = (KeyModel, Seq<u8>);

pub open spec fn key_size(k: KeyModel) -> int {
    (encode_utf8(k.0.0).len() + encode_utf8(k.0.1).len() + encode_utf8(k.0.2).len()
        + encode_utf8(k.0.3).len()) as int
}

pub open spec fn entry_size(e: Entry) -> int {
    key_size(e.0) + e.1.len()
}

pub open spec fn total_size(s: Seq<Entry>) -> int
    decreases s.len(),
{
    if s.len() == 0 {
        0
    } else {
        entry_size(s[0]) + total_size(s.drop_first())
    }
}

pub open spec fn keys_unique(s: Seq<Entry>) -> bool {
    forall|i: int, j: int|
        0 <= i < s.len() && 0 <= j < s.len() && #[trigger] s[i].0 == #[trigger] s[j].0 ==> i == j
}

pub open spec fn has_key(s: Seq<Entry>, k: KeyModel) -> bool {
    exists|i: int| 0 <= i < s.len() && #[trigger] s[i].0 == k
}

/// Where `k` stands in `s`; meaningful only when `has_key(s, k)`.
pub open spec fn index_of(s: Seq<Entry>, k: KeyModel) -> int {
    choose|i: int| 0 <= i < s.len() && #[trigger] s[i].0 == k
}

/// What a lookup of `k` returns.
pub open spec fn lookup(s: Seq<Entry>, k: KeyModel) -> Option<Seq<u8>> {
    if has_key(s, k) {
        Some(s[index_of(s, k)].1)
    } else {
        None
    }
}

/// The entries after a lookup of `k`: a hit becomes the most recently used.
pub open spec fn after_lookup(s: Seq<Entry>, k: KeyModel) -> Seq<Entry> {
    if has_key(s, k) {
        s.remove(index_of(s, k)).push(s[index_of(s, k)])
    } else {
        s
    }
}

/// The entries with any entry for `k` taken out.
pub open spec fn without(s: Seq<Entry>, k: KeyModel) -> Seq<Entry> {
    if has_key(s, k) {
        s.remove(index_of(s, k))
    } else {
        s
    }
}

/// Drops the least recently used entries, never the most recent one,
/// until the total fits in `cap`.
pub open spec fn evicted(s: Seq<Entry>, cap: int) -> Seq<Entry>
    decreases s.len(),
{
    if s.len() <= 1 || total_size(s) <= cap {
        s
    } else {
        evicted(s.drop_first(), cap)
    }
}

/// The entries after inserting `e`. An entry larger than the whole budget
/// is refused and leaves the cache as it was.
pub open spec fn inserted(s: Seq<Entry>, cap: int, e: Entry) -> Seq<Entry> {
    if entry_size(e) > cap {
        s
    } else {
        evicted(without(s, e.0).push(e), cap)
    }
}

pub open spec fn bytes_view(r: Option<Vec<u8>>) -> Option<Seq<u8>> {
    match r {
        Some(v) => Some(v@),
        None => None,
    }
}

pub proof fn lemma_total_nonneg(s: Seq<Entry>)
    ensures
        total_size(s) >= 0,
    decreases s.len(),
{
    if s.len() > 0 {
        lemma_total_nonneg(s.drop_first());
    }
}

pub proof fn lemma_total_push(s: Seq<Entry>, e: Entry)
    ensures
        total_size(s.push(e)) == total_size(s) + entry_size(e),
    decreases s.len(),
{
    if s.len() == 0 {
        assert(s.push(e).drop_first() =~= Seq::<Entry>::empty());
        assert(s.push(e)[0] == e);
        assert(total_size(s.push(e).drop_first()) == 0);
    } else {
        assert(s.push(e).drop_first() =~= s.drop_first().push(e));
        assert(s.push(e)[0] == s[0]);
        lemma_total_push(s.drop_first(), e);
    }
}

pub proof fn lemma_total_remove(s: Seq<Entry>, i: int)
    requires
        0 <= i < s.len(),
    ensures
        total_size(s.remove(i)) == total_size(s) - entry_size(s[i]),
    decreases s.len(),
{
    if i > 0 {
        assert(s.remove(i).drop_first() =~= s.drop_first().remove(i - 1));
        lemma_total_remove(s.drop_first(), i - 1);
    } else {
        assert(s.remove(0) =~= s.drop_first());
    }
}

/// Whatever is evicted, the most recently used entry stays and what is
/// left is a suffix of the input.
pub proof fn lemma_evicted_suffix(s: Seq<Entry>, cap: int)
    requires
        s.len() > 0,
    ensures
        exists|n: int| 0 <= n < s.len() && evicted(s, cap) == s.subrange(n, s.len() as int),
    decreases s.len(),
{
    if s.len() <= 1 || total_size(s) <= cap {
        assert(evicted(s, cap) == s.subrange(0, s.len() as int));
    } else {
        lemma_evicted_suffix(s.drop_first(), cap);
        let n = choose|n: int|
            0 <= n < s.drop_first().len() && evicted(s.drop_first(), cap) == s.drop_first().subrange(
                n,
                s.drop_first().len() as int,
            );
        assert(s.drop_first().subrange(n, s.drop_first().len() as int) =~= s.subrange(
            n + 1,
            s.len() as int,
        ));
    }
}

pub proof fn lemma_without_key(s: Seq<Entry>, k: KeyModel)
    requires
        keys_unique(s),
    ensures
        !has_key(without(s, k), k),
        keys_unique(without(s, k)),
        has_key(s, k) ==> total_size(without(s, k)) == total_size(s) - entry_size(
            s[index_of(s, k)],
        ),
        !has_key(s, k) ==> without(s, k) == s,
{
    if has_key(s, k) {
        let i = index_of(s, k);
        lemma_total_remove(s, i);
        let t = s.remove(i);
        assert forall|j: int| 0 <= j < t.len() implies #[trigger] t[j].0 != k by {
            if j < i {
                assert(t[j] == s[j]);
            } else {
                assert(t[j] == s[j + 1]);
            }
        }
        assert forall|a: int, b: int|
            0 <= a < t.len() && 0 <= b < t.len() && #[trigger] t[a].0 == #[trigger] t[b].0 implies a
            == b by {
            let a1 = if a < i {
                a
            } else {
                a + 1
            };
            let b1 = if b < i {
                b
            } else {
                b + 1
            };
            assert(t[a] == s[a1]);
            assert(t[b] == s[b1]);
        }
    }
}

/// After `without(s, k)` and a push of an entry for `k`, each suffix that
/// keeps the last entry has unique keys and finds `k` at its end.
pub proof fn lemma_suffix_after_push(s: Seq<Entry>, e: Entry, n: int)
    requires
        keys_unique(s),
        !has_key(s, e.0),
        0 <= n <= s.len(),
    ensures
        keys_unique(s.push(e).subrange(n, s.len() + 1 as int)),
        lookup(s.push(e).subrange(n, s.len() + 1 as int), e.0) == Some(e.1),
{
    let t = s.push(e).subrange(n, s.len() + 1 as int);
    let last = t.len() - 1;
    assert(t[last] == e);
    assert forall|a: int, b: int|
        0 <= a < t.len() && 0 <= b < t.len() && #[trigger] t[a].0 == #[trigger] t[b].0 implies a
        == b by {
        assert(t[a] == s.push(e)[a + n]);
        assert(t[b] == s.push(e)[b + n]);
        if a != last {
            assert(s[a + n] == t[a]);
        }
        if b != last {
            assert(s[b + n] == t[b]);
        }
    }
    assert(has_key(t, e.0));
    let i = index_of(t, e.0);
    assert(t[i].0 == t[last].0);
}

/// Appending an entry under another key leaves what a lookup of `k` finds.
pub proof fn lemma_lookup_push_other(s: Seq<Entry>, e: Entry, k: KeyModel)
    requires
        keys_unique(s),
        e.0 != k,
    ensures
        lookup(s.push(e), k) == lookup(s, k),
{
    let t = s.push(e);
    if has_key(s, k) {
        let i = index_of(s, k);
        assert(t[i] == s[i]);
        assert(has_key(t, k));
        let j = index_of(t, k);
        assert(j != s.len());
        assert(t[j] == s[j]);
        assert(s[j].0 == s[i].0);
    } else if has_key(t, k) {
        let j = index_of(t, k);
        assert(t[j] == s[j]);
        assert(false);
    }
}

/// A byte-budgeted least-recently-used cache from request fingerprints to
/// audio bytes.
pub struct SpeechCache {
    entries: Vec<(CacheKey, Vec<u8>)>,
    total: usize,
    capacity: usize,
}

impl View for SpeechCache {
    type V = Seq<Entry>;

    closed spec fn view(&self) -> Seq<Entry> {
        self.entries@.map_values(|p: (CacheKey, Vec<u8>)| (p.0@, p.1@))
    }
}

/// Length of `s` in UTF-8 bytes.
fn utf8_len(s: &String) -> (r: usize)
    ensures
        r == encode_utf8(s@).len(),
{
    s.as_str().as_bytes().len()
}

/// Accounted size of an entry, or `None` where it does not fit in `usize`.
fn size_of_entry(key: &CacheKey, value: &Vec<u8>) -> (r: Option<usize>)
    ensures
        r matches Some(n) ==> n == entry_size((key@, value@)),
        r is None ==> entry_size((key@, value@)) > usize::MAX,
{
    let r = &key.request;
    let a = match utf8_len(&r.model).checked_add(utf8_len(&r.voice)) {
        Some(x) => x,
        None => {
            return None;
        },
    };
    let b = match a.checked_add(utf8_len(&r.input)) {
        Some(x) => x,
        None => {
            return None;
        },
    };
    let c = match b.checked_add(utf8_len(&r.response_format)) {
        Some(x) => x,
        None => {
            return None;
        },
    };
    c.checked_add(value.len())
}

fn copy_bytes(v: &Vec<u8>) -> (r: Vec<u8>)
    ensures
        r@ == v@,
{
    let r = v.clone();
    assert(r@ =~= v@);
    r
}

impl SpeechCache {
    /// Entries have unique keys, `total` is their accounted size, and it
    /// fits in the budget.
    pub closed spec fn wf(&self) -> bool {
        &&& keys_unique(self@)
        &&& self.total == total_size(self@)
        &&& total_size(self@) <= self.capacity
    }

    /// What a well-formed cache shows of itself.
    pub proof fn lemma_wf_bounds(&self)
        requires
            self.wf(),
        ensures
            keys_unique(self@),
            total_size(self@) <= self.capacity_spec(),
    {
    }

    pub closed spec fn capacity_spec(&self) -> nat {
        self.capacity as nat
    }

    /// An empty cache with a budget of `capacity` bytes.
    pub fn new(capacity: usize) -> (r: SpeechCache)
        ensures
            r.wf(),
            r@ == Seq::<Entry>::empty(),
            total_size(r@) == 0,
            r.capacity_spec() == capacity,
    {
        let r = SpeechCache { entries: Vec::new(), total: 0, capacity };
        assert(r@ =~= Seq::<Entry>::empty());
        r
    }

    pub fn capacity(&self) -> (r: usize)
        ensures
            r == self.capacity_spec(),
    {
        self.capacity
    }

    /// Accounted size of all entries.
    pub fn total_size(&self) -> (r: usize)
        requires
            self.wf(),
        ensures
            r == total_size(self@),
    {
        self.total
    }

    pub fn len(&self) -> (r: usize)
        ensures
            r == self@.len(),
    {
        self.entries.len()
    }

    fn position(&self, key: &CacheKey) -> (r: Option<usize>)
        ensures
            r matches Some(i) ==> i < self@.len() && self@[i as int].0 == key@,
            r is None ==> !has_key(self@, key@),
    {
        let mut i: usize = 0;
        while i < self.entries.len()
            invariant
                0 <= i <= self.entries@.len(),
                self@.len() == self.entries@.len(),
                forall|j: int| 0 <= j < i ==> #[trigger] self@[j].0 != key@,
            decreases self.entries@.len() - i,
        {
            if self.entries[i].0.same_as(key) {
                return Some(i);
            }
            i = i + 1;
        }
        None
    }

    /// Looks `key` up. A hit returns a copy of the audio and makes the entry
    /// the most recently used; a miss changes nothing.
    pub fn get(&mut self, key: &CacheKey) -> (r: Option<Vec<u8>>)
        requires
            old(self).wf(),
        ensures
            final(self).wf(),
            final(self).capacity_spec() == old(self).capacity_spec(),
            bytes_view(r) == lookup(old(self)@, key@),
            keys_unique(final(self)@),
            total_size(final(self)@) <= final(self).capacity_spec(),
            final(self)@ == after_lookup(old(self)@, key@),
    {
        let ghost s = self@;
        match self.position(key) {
            None => None,
            Some(i) => {
                proof {
                    assert(s[index_of(s, key@)].0 == s[i as int].0);
                    assert(index_of(s, key@) == i);
                    lemma_total_remove(s, i as int);
                    lemma_total_push(s.remove(i as int), s[i as int]);
                }
                let entry = self.entries.remove(i);
                let value = copy_bytes(&entry.1);
                self.entries.push(entry);
                let ghost t = self@;
                assert(t =~= s.remove(i as int).push(s[i as int]));
                proof {
                    assert forall|a: int, b: int|
                        0 <= a < t.len() && 0 <= b < t.len() && #[trigger] t[a].0
                            == #[trigger] t[b].0 implies a == b by {
                        let last = t.len() - 1;
                        let a1 = if a == last {
                            i as int
                        } else if a < i {
                            a
                        } else {
                            a + 1
                        };
                        let b1 = if b == last {
                            i as int
                        } else if b < i {
                            b
                        } else {
                            b + 1
                        };
                        assert(t[a] == s[a1]);
                        assert(t[b] == s[b1]);
                    }
                }
                Some(value)
            },
        }
    }

    /// Inserts or replaces the entry for `key`, then evicts least recently
    /// used entries, never the new one, until the total fits the budget.
    /// Returns whether the entry was stored: one larger than the whole
    /// budget is refused and the cache is left as it was.
    pub fn insert(&mut self, key: CacheKey, value: Vec<u8>) -> (stored: bool)
        requires
            old(self).wf(),
        ensures
            final(self).wf(),
            final(self).capacity_spec() == old(self).capacity_spec(),
            stored == (entry_size((key@, value@)) <= old(self).capacity_spec()),
            keys_unique(final(self)@),
            total_size(final(self)@) <= final(self).capacity_spec(),
            final(self)@ == inserted(old(self)@, old(self).capacity_spec() as int, (key@, value@)),
    {
        let ghost e: Entry = (key@, value@);
        let ghost cap = self.capacity as int;
        let size = match size_of_entry(&key, &value) {
            Some(n) => n,
            None => {
                return false;
            },
        };
        if size > self.capacity {
            return false;
        }
        let ghost s = self@;
        proof {
            lemma_without_key(s, key@);
        }
        match self.position(&key) {
            Some(i) => {
                proof {
                    assert(s[index_of(s, key@)].0 == s[i as int].0);
                    assert(index_of(s, key@) == i);
                    lemma_total_nonneg(without(s, key@));
                }
                let old_entry = self.entries.remove(i);
                assert(self@ =~= s.remove(i as int));
                let old_size = match size_of_entry(&old_entry.0, &old_entry.1) {
                    Some(n) => n,
                    None => {
                        return false;
                    },
                };
                self.total = self.total - old_size;
            },
            None => {},
        }
        let ghost base = without(s, key@);
        assert(self@ == base);
        let ghost mut n: int = 0;
        while self.entries.len() > 0 && self.total > self.capacity - size
            invariant
                0 <= n <= base.len(),
                self@ == base.subrange(n, base.len() as int),
                self.total == total_size(self@),
                self.capacity == cap,
                size == entry_size(e),
                size <= cap,
                evicted(self@.push(e), cap) == evicted(base.push(e), cap),
            decreases self.entries@.len(),
        {
            let ghost cur = self@;
            proof {
                lemma_total_push(cur, e);
                assert(cur.push(e).drop_first() =~= cur.drop_first().push(e));
                lemma_total_remove(cur, 0);
                assert(cur.remove(0) =~= cur.drop_first());
            }
            let first = self.entries.remove(0);
            assert(self@ =~= cur.drop_first());
            let first_size = match size_of_entry(&first.0, &first.1) {
                Some(n) => n,
                None => {
                    proof {
                        lemma_total_nonneg(cur.drop_first());
                    }
                    return false;
                },
            };
            proof {
                lemma_total_nonneg(cur.drop_first());
                n = n + 1;
                assert(base.subrange(n, base.len() as int) =~= cur.drop_first());
            }
            self.total = self.total - first_size;
        }
        proof {
            let cur = self@;
            lemma_total_push(cur, e);
            if cur.len() == 0 {
                assert(cur.push(e).len() == 1);
            }
            assert(evicted(cur.push(e), cap) == cur.push(e));
            lemma_suffix_after_push(base, e, n);
            assert(cur.push(e) =~= base.push(e).subrange(n, base.len() + 1 as int));
        }
        let ghost cur = self@;
        self.entries.push((key, value));
        self.total = self.total + size;
        assert(self@ =~= cur.push(e));
        true
    }
}

} // verus!
