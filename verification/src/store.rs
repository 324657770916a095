//! The in-memory artifact store: a map from cache key to artifact bytes
//! with byte-budget accounting and least-recently-used eviction driven by
//! a logical access clock. Keys are modeled by their UTF-8 bytes.

use vstd::prelude::*;
use vstd::utf8::encode_utf8;
use vstd::string::StringSliceAdditionalSpecFns;
use crate::ascii::bytes_eq;
use crate::cache::CacheEntry;
use crate::eviction::{lemma_sum_alive_mono, lemma_sum_kept, plan_eviction, spec_alive_from,
    spec_sum_alive, spec_total_size};

verus! {

/// The store. All artifacts it returns are exactly the bytes that were
/// put under the same key; the total of the held sizes is kept within
/// the configured budget by evicting least-recently-used entries.
pub struct ImageCache {
    keys: Vec<String>,
    entries: Vec<CacheEntry>,
    stamps: Vec<u64>,
    clock: u64,
    current_size: u64,
    max_size: u64,
    encryption_enabled: bool,
}

impl ImageCache {
    /// Well-formed: the three columns align, keys are distinct, each
    /// entry's recorded size is its data length, the size counter is the
    /// exact total, and no access stamp is ahead of the clock.
    pub closed spec fn wf(&self) -> bool {
        &&& self.keys@.len() == self.entries@.len()
        &&& self.keys@.len() == self.stamps@.len()
        &&& forall|i: int, j: int|
            0 <= i < j < self.keys@.len() ==> encode_utf8(#[trigger] self.keys@[i]@) != encode_utf8(
                #[trigger] self.keys@[j]@,
            )
        &&& forall|i: int|
            0 <= i < self.entries@.len() ==> (#[trigger] self.entries@[i]).size
                == self.entries@[i].data@.len()
        &&& self.current_size == spec_total_size(
            self.entries@.map_values(|e: CacheEntry| e.size),
        )
        &&& forall|i: int| 0 <= i < self.stamps@.len() ==> #[trigger] self.stamps@[i] <= self.clock
    }

    /// Whether some entry is stored under the given key bytes.
    pub closed spec fn spec_contains(&self, key: Seq<u8>) -> bool {
        exists|i: int| 0 <= i < self.keys@.len() && encode_utf8(#[trigger] self.keys@[i]@) == key
    }

    /// The artifact stored under the given key bytes, if any.
    pub closed spec fn spec_get(&self, key: Seq<u8>) -> Option<Seq<u8>> {
        if self.spec_contains(key) {
            let i = choose|i: int|
                0 <= i < self.keys@.len() && encode_utf8(#[trigger] self.keys@[i]@) == key;
            Some(self.entries@[i].data@)
        } else {
            None
        }
    }

    /// The access stamp of the entry under the given key bytes, zero when
    /// absent. Stamps order accesses: a get or put of a key leaves it with
    /// the largest stamp in the store, and eviction removes the
    /// smallest-stamped entries first.
    pub closed spec fn spec_stamp_of(&self, key: Seq<u8>) -> u64 {
        if self.spec_contains(key) {
            let i = choose|i: int|
                0 <= i < self.keys@.len() && encode_utf8(#[trigger] self.keys@[i]@) == key;
            self.stamps@[i]
        } else {
            0u64
        }
    }

    pub closed spec fn spec_current_size(&self) -> u64 {
        self.current_size
    }

    pub closed spec fn spec_max_size(&self) -> u64 {
        self.max_size
    }

    pub closed spec fn spec_encryption_enabled(&self) -> bool {
        self.encryption_enabled
    }

    /// An empty store with a budget of `max_size_mb` mebibytes.
    pub fn new(max_size_mb: u64, encryption_enabled: bool) -> (r: ImageCache)
        requires
            max_size_mb * 1024 * 1024 <= u64::MAX,
        ensures
            r.wf(),
            r.spec_max_size() == max_size_mb * 1024 * 1024,
            r.spec_current_size() == 0,
            r.spec_encryption_enabled() == encryption_enabled,
            forall|k: Seq<u8>| r.spec_get(k) is None,
    {
        ImageCache {
            keys: Vec::new(),
            entries: Vec::new(),
            stamps: Vec::new(),
            clock: 0,
            current_size: 0,
            max_size: max_size_mb * 1024 * 1024,
            encryption_enabled,
        }
    }

    /// Whether stored payloads are encrypted on disk.
    pub fn encryption_enabled(&self) -> (r: bool)
        ensures
            r == self.spec_encryption_enabled(),
    {
        self.encryption_enabled
    }

    /// The configured byte budget.
    pub fn max_size(&self) -> (r: u64)
        ensures
            r == self.spec_max_size(),
    {
        self.max_size
    }

    /// The exact total of held artifact sizes.
    pub fn current_size(&self) -> (r: u64)
        ensures
            r == self.spec_current_size(),
    {
        self.current_size
    }

    /// The index holding `key`, if any.
    fn find(&self, key: &str) -> (r: Option<usize>)
        requires
            self.wf(),
        ensures
            match r {
                Some(i) => (i as int) < self.keys@.len() && encode_utf8(self.keys@[i as int]@)
                    == key.spec_bytes(),
                None => !self.spec_contains(key.spec_bytes()),
            },
    {
        let n: usize = self.keys.len();
        let mut i: usize = 0;
        while i < n
            invariant
                n == self.keys@.len(),
                i <= n,
                forall|j: int|
                    0 <= j < i ==> encode_utf8(#[trigger] self.keys@[j]@) != key.spec_bytes(),
            decreases n - i,
        {
            if bytes_eq(self.keys[i].as_str().as_bytes(), key.as_bytes()) {
                return Some(i);
            }
            i = i + 1;
        }
        None
    }

    /// Looks the key up, refreshes its access stamp — on a hit the key
    /// becomes the most recently used entry — and returns a copy of the
    /// stored artifact. The store's contents and every other entry's
    /// stamp are unchanged.
    pub fn get(&mut self, key: &str) -> (r: Option<Vec<u8>>)
        requires
            old(self).wf(),
        ensures
            final(self).wf(),
            match r {
                Some(d) => old(self).spec_get(key.spec_bytes()) == Some(d@),
                None => old(self).spec_get(key.spec_bytes()) is None,
            },
            forall|k: Seq<u8>| final(self).spec_get(k) == old(self).spec_get(k),
            forall|k: Seq<u8>|
                k != key.spec_bytes() ==> final(self).spec_stamp_of(k) == old(self).spec_stamp_of(
                    k,
                ),
            r is Some ==> forall|k: Seq<u8>|
                final(self).spec_contains(k) ==> final(self).spec_stamp_of(k) <= final(self)
                    .spec_stamp_of(key.spec_bytes()),
            final(self).spec_current_size() == old(self).spec_current_size(),
            final(self).spec_max_size() == old(self).spec_max_size(),
            final(self).spec_encryption_enabled() == old(self).spec_encryption_enabled(),
    {
        let ghost pre = *self;
        match self.find(key) {
            Some(i) => {
                self.clock = self.clock.saturating_add(1);
                let stamp = self.clock;
                self.stamps.set(i, stamp);
                let mut data: Vec<u8> = Vec::new();
                data.extend_from_slice(self.entries[i].data.as_slice());
                proof {
                    assert(data@ =~= self.entries@[i as int].data@);
                    let ghost kb = key.spec_bytes();
                    assert(encode_utf8(self.keys@[i as int]@) == kb);
                    assert(self.spec_contains(kb));
                    let ghost w = choose|w: int|
                        0 <= w < self.keys@.len() && encode_utf8(#[trigger] self.keys@[w]@) == kb;
                    assert(w == i as int);
                    assert(final(self).spec_stamp_of(kb) == stamp);
                    assert forall|k: Seq<u8>| k != kb implies final(self).spec_stamp_of(k) == pre
                        .spec_stamp_of(k) by {
                        if pre.spec_contains(k) {
                            let w2 = choose|w2: int|
                                0 <= w2 < self.keys@.len() && encode_utf8(
                                    #[trigger] self.keys@[w2]@,
                                ) == k;
                            assert(w2 != i as int);
                            assert(self.stamps@[w2] == pre.stamps@[w2]);
                        }
                    }
                    assert forall|k: Seq<u8>| final(self).spec_contains(k) implies final(self)
                        .spec_stamp_of(k) <= final(self).spec_stamp_of(kb) by {
                        let w2 = choose|w2: int|
                            0 <= w2 < self.keys@.len() && encode_utf8(#[trigger] self.keys@[w2]@)
                                == k;
                        assert(self.stamps@[w2] <= self.clock);
                    }
                }
                Some(data)
            },
            None => None,
        }
    }
    /// Evicts least-recently-used entries until what is held fits in the
    /// budget left after reserving `needed` bytes (the whole budget is
    /// freed when `needed` exceeds it). Surviving entries keep their data
    /// and stamps, and no evicted entry was more recently used than a
    /// survivor.
    fn ensure_space(&mut self, needed: u64)
        requires
            old(self).wf(),
        ensures
            final(self).wf(),
            final(self).spec_current_size() <= (if needed <= old(self).spec_max_size() {
                (old(self).spec_max_size() - needed) as u64
            } else {
                0u64
            }),
            forall|k: Seq<u8>|
                final(self).spec_contains(k) ==> old(self).spec_contains(k)
                    && final(self).spec_get(k) == old(self).spec_get(k)
                    && final(self).spec_stamp_of(k) == old(self).spec_stamp_of(k),
            forall|k1: Seq<u8>, k2: Seq<u8>|
                old(self).spec_contains(k1) && !final(self).spec_contains(k1) && final(self)
                    .spec_contains(k2) ==> old(self).spec_stamp_of(k1) <= old(self).spec_stamp_of(
                    k2,
                ),
            final(self).spec_max_size() == old(self).spec_max_size(),
            final(self).spec_encryption_enabled() == old(self).spec_encryption_enabled(),
    {
        let limit: u64 = self.max_size.saturating_sub(needed);
        if self.current_size <= limit {
            return ;
        }
        let n: usize = self.keys.len();
        let mut sizes: Vec<u64> = Vec::new();
        let mut i: usize = 0;
        while i < n
            invariant
                n == self.entries@.len(),
                i <= n,
                sizes@.len() == i,
                forall|j: int| 0 <= j < i ==> sizes@[j] == (#[trigger] self.entries@[j]).size,
            decreases n - i,
        {
            sizes.push(self.entries[i].size);
            i = i + 1;
        }
        proof {
            assert(sizes@ =~= self.entries@.map_values(|e: CacheEntry| e.size));
        }
        let plan = plan_eviction(&self.stamps, &sizes, limit);
        let ghost af = spec_alive_from(plan@, n as int);
        proof {
            lemma_sum_kept(sizes@, plan@);
        }
        let mut new_keys: Vec<String> = Vec::new();
        let mut new_entries: Vec<CacheEntry> = Vec::new();
        let mut new_stamps: Vec<u64> = Vec::new();
        let mut acc: u64 = 0;
        let mut i2: usize = 0;
        while i2 < n
            invariant
                n == self.keys@.len(),
                n == self.entries@.len(),
                n == self.stamps@.len(),
                self.wf(),
                i2 <= n,
                af == spec_alive_from(plan@, n as int),
                af.len() == n,
                forall|j: int| 0 <= j < n ==> af[j] == !plan@.contains(j as usize),
                sizes@ == self.entries@.map_values(|e: CacheEntry| e.size),
                spec_sum_alive(sizes@, af, n as int) <= u64::MAX,
                spec_sum_alive(sizes@, af, n as int) >= 0,
                new_keys@.len() == new_entries@.len(),
                new_keys@.len() == new_stamps@.len(),
                acc == spec_sum_alive(sizes@, af, i2 as int),
                spec_total_size(new_entries@.map_values(|e: CacheEntry| e.size)) == acc as int,
                forall|p: int|
                    0 <= p < new_keys@.len() ==> #[trigger] kept_from(
                        new_keys@,
                        new_entries@,
                        new_stamps@,
                        self.keys@,
                        self.entries@,
                        self.stamps@,
                        plan@,
                        p,
                        i2 as int,
                    ),
                forall|i3: int| 0 <= i3 < i2 ==> #[trigger] survives(
                    new_keys@,
                    self.keys@,
                    plan@,
                    i3,
                ),
                forall|p: int|
                    0 <= p < new_entries@.len() ==> (#[trigger] new_entries@[p]).size
                        == new_entries@[p].data@.len(),
                forall|p1: int, p2: int|
                    0 <= p1 < p2 < new_keys@.len() ==> encode_utf8(#[trigger] new_keys@[p1]@)
                        != encode_utf8(#[trigger] new_keys@[p2]@),
            decreases n - i2,
        {
            if !plan_contains(&plan, i2) {
                proof {
                    lemma_sum_alive_mono(sizes@, af, i2 + 1, n as int);
                    assert(af[i2 as int]);
                }
                let k = self.keys[i2].clone();
                let mut d: Vec<u8> = Vec::new();
                d.extend_from_slice(self.entries[i2].data.as_slice());
                proof {
                    assert(d@ =~= self.entries@[i2 as int].data@);
                }
                let sz = self.entries[i2].size;
                let ghost prev_keys = new_keys@;
                let ghost prev_entries = new_entries@;
                let ghost prev_stamps = new_stamps@;
                new_keys.push(k);
                new_entries.push(CacheEntry { data: d, size: sz });
                new_stamps.push(self.stamps[i2]);
                acc = acc + sz;
                proof {
                    assert(new_entries@.map_values(|e: CacheEntry| e.size) =~= prev_entries
                        .map_values(|e: CacheEntry| e.size).push(sz));
                    crate::eviction::lemma_total_push(
                        prev_entries.map_values(|e: CacheEntry| e.size),
                        sz,
                    );
                    assert forall|p: int| 0 <= p < new_keys@.len() implies #[trigger] kept_from(
                        new_keys@,
                        new_entries@,
                        new_stamps@,
                        self.keys@,
                        self.entries@,
                        self.stamps@,
                        plan@,
                        p,
                        i2 + 1,
                    ) by {
                        if p == new_keys@.len() - 1 {
                            assert(new_keys@[p]@ == self.keys@[i2 as int]@);
                            assert(new_entries@[p].data@ == self.entries@[i2 as int].data@);
                            assert(new_entries@[p].size == self.entries@[i2 as int].size);
                            assert(new_stamps@[p] == self.stamps@[i2 as int]);
                        } else {
                            assert(kept_from(
                                prev_keys,
                                prev_entries,
                                prev_stamps,
                                self.keys@,
                                self.entries@,
                                self.stamps@,
                                plan@,
                                p,
                                i2 as int,
                            ));
                            let i3 = choose|i3: int|
                                0 <= i3 < i2 && !plan@.contains(i3 as usize) && prev_keys[p]@ == (
                                #[trigger] self.keys@[i3])@ && prev_entries[p].data@
                                    == self.entries@[i3].data@ && prev_entries[p].size
                                    == self.entries@[i3].size && prev_stamps[p]
                                    == self.stamps@[i3];
                            assert(new_keys@[p] == prev_keys[p]);
                            assert(new_entries@[p] == prev_entries[p]);
                            assert(new_stamps@[p] == prev_stamps[p]);
                        }
                    }
                    assert forall|i3: int| 0 <= i3 < i2 + 1 implies #[trigger] survives(
                        new_keys@,
                        self.keys@,
                        plan@,
                        i3,
                    ) by {
                        if i3 == i2 as int {
                            assert(new_keys@[new_keys@.len() - 1]@ == self.keys@[i3]@);
                        } else {
                            assert(survives(prev_keys, self.keys@, plan@, i3));
                            if !plan@.contains(i3 as usize) {
                                let p0 = choose|p0: int|
                                    0 <= p0 < prev_keys.len() && (#[trigger] prev_keys[p0])@
                                        == self.keys@[i3]@;
                                assert(new_keys@[p0] == prev_keys[p0]);
                            }
                        }
                    }
                    assert forall|p1: int, p2: int|
                        0 <= p1 < p2 < new_keys@.len() implies encode_utf8(
                        #[trigger] new_keys@[p1]@,
                    ) != encode_utf8(#[trigger] new_keys@[p2]@) by {
                        if p2 == new_keys@.len() - 1 {
                            assert(kept_from(
                                prev_keys,
                                prev_entries,
                                prev_stamps,
                                self.keys@,
                                self.entries@,
                                self.stamps@,
                                plan@,
                                p1,
                                i2 as int,
                            ));
                            let i3 = choose|i3: int|
                                0 <= i3 < i2 && !plan@.contains(i3 as usize) && prev_keys[p1]@
                                    == (#[trigger] self.keys@[i3])@ && prev_entries[p1].data@
                                    == self.entries@[i3].data@ && prev_entries[p1].size
                                    == self.entries@[i3].size && prev_stamps[p1]
                                    == self.stamps@[i3];
                            assert(new_keys@[p1] == prev_keys[p1]);
                            assert(encode_utf8(self.keys@[i3]@) != encode_utf8(
                                self.keys@[i2 as int]@,
                            ));
                            assert(new_keys@[p2]@ == self.keys@[i2 as int]@);
                        }
                    }
                }
            } else {
                proof {
                    assert(!af[i2 as int]);
                    assert(plan@.contains(i2));
                    assert(survives(new_keys@, self.keys@, plan@, i2 as int));
                    assert forall|p: int| 0 <= p < new_keys@.len() implies #[trigger] kept_from(
                        new_keys@,
                        new_entries@,
                        new_stamps@,
                        self.keys@,
                        self.entries@,
                        self.stamps@,
                        plan@,
                        p,
                        i2 + 1,
                    ) by {
                        assert(kept_from(
                            new_keys@,
                            new_entries@,
                            new_stamps@,
                            self.keys@,
                            self.entries@,
                            self.stamps@,
                            plan@,
                            p,
                            i2 as int,
                        ));
                        let i3 = choose|i3: int|
                            0 <= i3 < i2 && !plan@.contains(i3 as usize) && new_keys@[p]@ == (
                            #[trigger] self.keys@[i3])@ && new_entries@[p].data@
                                == self.entries@[i3].data@ && new_entries@[p].size
                                == self.entries@[i3].size && new_stamps@[p] == self.stamps@[i3];
                    }
                }
            }
            i2 = i2 + 1;
        }
        let ghost prior = *self;
        self.keys = new_keys;
        self.entries = new_entries;
        self.stamps = new_stamps;
        self.current_size = acc;
        proof {
            assert forall|p: int| 0 <= p < self.stamps@.len() implies #[trigger] self.stamps@[p]
                <= self.clock by {
                assert(kept_from(
                    self.keys@,
                    self.entries@,
                    self.stamps@,
                    prior.keys@,
                    prior.entries@,
                    prior.stamps@,
                    plan@,
                    p,
                    n as int,
                ));
                let i3 = choose|i3: int|
                    0 <= i3 < n && !plan@.contains(i3 as usize) && self.keys@[p]@ == (
                    #[trigger] prior.keys@[i3])@ && self.entries@[p].data@ == prior.entries@[
                    i3].data@ && self.entries@[p].size == prior.entries@[i3].size
                        && self.stamps@[p] == prior.stamps@[i3];
                assert(prior.stamps@[i3] <= prior.clock);
            }
            assert(self.wf());
            assert(self.spec_current_size() <= limit);
            assert forall|k: Seq<u8>| final(self).spec_contains(k) implies prior.spec_contains(k)
                && final(self).spec_get(k) == prior.spec_get(k) && final(self).spec_stamp_of(k)
                == prior.spec_stamp_of(k) by {
                let p = choose|p: int|
                    0 <= p < self.keys@.len() && encode_utf8(#[trigger] self.keys@[p]@) == k;
                assert(kept_from(
                    self.keys@,
                    self.entries@,
                    self.stamps@,
                    prior.keys@,
                    prior.entries@,
                    prior.stamps@,
                    plan@,
                    p,
                    n as int,
                ));
                let i3 = choose|i3: int|
                    0 <= i3 < n && !plan@.contains(i3 as usize) && self.keys@[p]@ == (
                    #[trigger] prior.keys@[i3])@ && self.entries@[p].data@ == prior.entries@[
                    i3].data@ && self.entries@[p].size == prior.entries@[i3].size
                        && self.stamps@[p] == prior.stamps@[i3];
                assert(encode_utf8(prior.keys@[i3]@) == k);
                assert(prior.spec_contains(k));
                let w = choose|w: int|
                    0 <= w < prior.keys@.len() && encode_utf8(#[trigger] prior.keys@[w]@) == k;
                assert(w == i3);
            }
            assert forall|k1: Seq<u8>, k2: Seq<u8>|
                prior.spec_contains(k1) && !final(self).spec_contains(k1) && final(self)
                    .spec_contains(k2) implies prior.spec_stamp_of(k1) <= prior.spec_stamp_of(
                k2,
            ) by {
                let w1 = choose|w1: int|
                    0 <= w1 < prior.keys@.len() && encode_utf8(#[trigger] prior.keys@[w1]@) == k1;
                assert(prior.spec_stamp_of(k1) == prior.stamps@[w1]);
                assert(plan@.contains(w1 as usize)) by {
                    assert(survives(self.keys@, prior.keys@, plan@, w1));
                    if !plan@.contains(w1 as usize) {
                        let p0 = choose|p0: int|
                            0 <= p0 < self.keys@.len() && (#[trigger] self.keys@[p0])@
                                == prior.keys@[w1]@;
                        assert(encode_utf8(self.keys@[p0]@) == k1);
                        assert(final(self).spec_contains(k1));
                    }
                }
                let kidx = choose|kidx: int| 0 <= kidx < plan@.len() && plan@[kidx] == w1 as usize;
                let p2 = choose|p2: int|
                    0 <= p2 < self.keys@.len() && encode_utf8(#[trigger] self.keys@[p2]@) == k2;
                assert(kept_from(
                    self.keys@,
                    self.entries@,
                    self.stamps@,
                    prior.keys@,
                    prior.entries@,
                    prior.stamps@,
                    plan@,
                    p2,
                    n as int,
                ));
                let i3 = choose|i3: int|
                    0 <= i3 < n && !plan@.contains(i3 as usize) && self.keys@[p2]@ == (
                    #[trigger] prior.keys@[i3])@ && self.entries@[p2].data@ == prior.entries@[
                    i3].data@ && self.entries@[p2].size == prior.entries@[i3].size
                        && self.stamps@[p2] == prior.stamps@[i3];
                assert(encode_utf8(prior.keys@[i3]@) == k2);
                let w2 = choose|w2: int|
                    0 <= w2 < prior.keys@.len() && encode_utf8(#[trigger] prior.keys@[w2]@) == k2;
                assert(w2 == i3);
                assert(prior.spec_stamp_of(k2) == prior.stamps@[i3]);
                assert(prior.stamps@[plan@[kidx] as int] <= prior.stamps@[i3]);
            }
        }
    }

    /// Stores an artifact under a key: any prior entry under the key is
    /// replaced, older entries are evicted as needed to respect the
    /// budget, and the artifact is then retrievable under the key as the
    /// most recently used entry. Surviving other entries keep their data
    /// and stamps, anything evicted was no more recently used than any
    /// survivor, and whenever the artifact alone fits the budget, the
    /// held total stays within it.
    pub fn put(&mut self, key: String, data: Vec<u8>)
        requires
            old(self).wf(),
            data@.len() <= u64::MAX,
        ensures
            final(self).wf(),
            final(self).spec_get(encode_utf8(key@)) == Some(data@),
            forall|k: Seq<u8>|
                k != encode_utf8(key@) && final(self).spec_contains(k) ==> old(self).spec_contains(
                    k,
                ) && final(self).spec_get(k) == old(self).spec_get(k)
                    && final(self).spec_stamp_of(k) == old(self).spec_stamp_of(k),
            forall|k: Seq<u8>|
                final(self).spec_contains(k) ==> final(self).spec_stamp_of(k) <= final(self)
                    .spec_stamp_of(encode_utf8(key@)),
            forall|k1: Seq<u8>, k2: Seq<u8>|
                k1 != encode_utf8(key@) && k2 != encode_utf8(key@) && old(self).spec_contains(k1)
                    && !final(self).spec_contains(k1) && final(self).spec_contains(k2) ==> old(self)
                    .spec_stamp_of(k1) <= old(self).spec_stamp_of(k2),
            data@.len() <= old(self).spec_max_size()
                ==> final(self).spec_current_size() <= final(self).spec_max_size(),
            final(self).spec_max_size() == old(self).spec_max_size(),
            final(self).spec_encryption_enabled() == old(self).spec_encryption_enabled(),
    {
        let size: u64 = data.len() as u64;
        match self.find(key.as_str()) {
            Some(i) => {
                let ghost pre = *self;
                let old_size = self.entries[i].size;
                proof {
                    let szs = pre.entries@.map_values(|e: CacheEntry| e.size);
                    crate::eviction::lemma_total_remove(szs, i as int);
                    crate::eviction::lemma_total_nonneg(szs.remove(i as int));
                    assert(pre.entries@.remove(i as int).map_values(|e: CacheEntry| e.size)
                        =~= szs.remove(i as int));
                }
                self.keys.remove(i);
                self.entries.remove(i);
                self.stamps.remove(i);
                self.current_size = self.current_size - old_size;
                proof {
                    assert(self.wf());
                    assert(!self.spec_contains(encode_utf8(key@))) by {
                        if self.spec_contains(encode_utf8(key@)) {
                            let p = choose|p: int|
                                0 <= p < self.keys@.len() && encode_utf8(
                                    #[trigger] self.keys@[p]@,
                                ) == encode_utf8(key@);
                            if p < i as int {
                                assert(pre.keys@[p]@ == self.keys@[p]@);
                            } else {
                                assert(pre.keys@[p + 1]@ == self.keys@[p]@);
                            }
                        }
                    }
                    assert forall|k: Seq<u8>|
                        k != encode_utf8(key@) && self.spec_contains(k) implies pre.spec_contains(
                        k,
                    ) && self.spec_get(k) == pre.spec_get(k) && self.spec_stamp_of(k) == pre
                        .spec_stamp_of(k) by {
                        let p = choose|p: int|
                            0 <= p < self.keys@.len() && encode_utf8(#[trigger] self.keys@[p]@)
                                == k;
                        let orig: int = if p < i as int {
                            p
                        } else {
                            p + 1
                        };
                        assert(self.keys@[p]@ == pre.keys@[orig]@);
                        assert(self.entries@[p] == pre.entries@[orig]);
                        assert(self.stamps@[p] == pre.stamps@[orig]);
                        assert(pre.spec_contains(k));
                        let w = choose|w: int|
                            0 <= w < pre.keys@.len() && encode_utf8(#[trigger] pre.keys@[w]@)
                                == k;
                        assert(w == orig);
                    }
                    assert forall|k: Seq<u8>|
                        k != encode_utf8(key@) && pre.spec_contains(k) implies self.spec_contains(
                        k,
                    ) by {
                        let w = choose|w: int|
                            0 <= w < pre.keys@.len() && encode_utf8(#[trigger] pre.keys@[w]@)
                                == k;
                        assert(w != i as int);
                        let p: int = if w < i as int {
                            w
                        } else {
                            w - 1
                        };
                        assert(self.keys@[p]@ == pre.keys@[w]@);
                        assert(encode_utf8(self.keys@[p]@) == k);
                    }
                }
            },
            None => {},
        }
        let ghost mid = *self;
        self.ensure_space(size);
        proof {
            assert(!self.spec_contains(encode_utf8(key@)));
        }
        self.clock = self.clock.saturating_add(1);
        let stamp = self.clock;
        let ghost before_push = *self;
        proof {
            let szs = before_push.entries@.map_values(|e: CacheEntry| e.size);
            crate::eviction::lemma_total_push(szs, size);
            assert(before_push.entries@.push(CacheEntry { data: data, size: size }).map_values(
                |e: CacheEntry| e.size,
            ) =~= szs.push(size));
        }
        self.keys.push(key);
        self.entries.push(CacheEntry { data, size });
        self.stamps.push(stamp);
        self.current_size = self.current_size + size;
        proof {
            let kb = encode_utf8(self.keys@[self.keys@.len() - 1]@);
            assert(self.wf()) by {
                assert forall|p1: int, p2: int|
                    0 <= p1 < p2 < self.keys@.len() implies encode_utf8(
                    #[trigger] self.keys@[p1]@,
                ) != encode_utf8(#[trigger] self.keys@[p2]@) by {
                    if p2 == self.keys@.len() - 1 {
                        assert(self.keys@[p1]@ == before_push.keys@[p1]@);
                        if encode_utf8(before_push.keys@[p1]@) == kb {
                            assert(before_push.spec_contains(kb));
                        }
                    }
                }
                assert forall|p: int|
                    0 <= p < self.stamps@.len() implies #[trigger] self.stamps@[p]
                    <= self.clock by {
                    if p < self.stamps@.len() - 1 {
                        assert(self.stamps@[p] == before_push.stamps@[p]);
                    }
                }
            }
            assert(self.spec_get(kb) == Some(data@) && self.spec_stamp_of(kb) == stamp) by {
                assert(self.spec_contains(kb));
                let w = choose|w: int|
                    0 <= w < self.keys@.len() && encode_utf8(#[trigger] self.keys@[w]@) == kb;
                if w < self.keys@.len() - 1 {
                    assert(before_push.keys@[w]@ == self.keys@[w]@);
                    assert(before_push.spec_contains(kb));
                }
            }
            assert forall|k: Seq<u8>| self.spec_contains(k) implies self.spec_stamp_of(k)
                <= self.spec_stamp_of(kb) by {
                let w = choose|w: int|
                    0 <= w < self.keys@.len() && encode_utf8(#[trigger] self.keys@[w]@) == k;
                assert(self.stamps@[w] <= self.clock);
            }
            assert forall|k: Seq<u8>|
                k != kb && self.spec_contains(k) implies mid.spec_contains(k) && self.spec_get(k)
                == mid.spec_get(k) && self.spec_stamp_of(k) == mid.spec_stamp_of(k) by {
                let p = choose|p: int|
                    0 <= p < self.keys@.len() && encode_utf8(#[trigger] self.keys@[p]@) == k;
                assert(p < self.keys@.len() - 1);
                assert(before_push.keys@[p]@ == self.keys@[p]@);
                assert(before_push.spec_contains(k));
                let w = choose|w: int|
                    0 <= w < before_push.keys@.len() && encode_utf8(
                        #[trigger] before_push.keys@[w]@,
                    ) == k;
                assert(w == p);
                assert(self.spec_get(k) == before_push.spec_get(k) && self.spec_stamp_of(k)
                    == before_push.spec_stamp_of(k)) by {
                    let w2 = choose|w2: int|
                        0 <= w2 < self.keys@.len() && encode_utf8(#[trigger] self.keys@[w2]@)
                            == k;
                    assert(w2 == p);
                    assert(self.stamps@[p] == before_push.stamps@[p]);
                }
            }
            assert forall|k1: Seq<u8>, k2: Seq<u8>|
                k1 != kb && k2 != kb && old(self).spec_contains(k1) && !final(self).spec_contains(
                    k1,
                ) && final(self).spec_contains(k2) implies old(self).spec_stamp_of(k1) <= old(self)
                .spec_stamp_of(k2) by {
                assert(mid.spec_contains(k1));
                assert(!before_push.spec_contains(k1)) by {
                    if before_push.spec_contains(k1) {
                        let w = choose|w: int|
                            0 <= w < before_push.keys@.len() && encode_utf8(
                                #[trigger] before_push.keys@[w]@,
                            ) == k1;
                        assert(encode_utf8(self.keys@[w]@) == k1);
                        assert(final(self).spec_contains(k1));
                    }
                }
                assert(before_push.spec_contains(k2)) by {
                    let p = choose|p: int|
                        0 <= p < self.keys@.len() && encode_utf8(#[trigger] self.keys@[p]@)
                            == k2;
                    assert(p < self.keys@.len() - 1);
                    assert(before_push.keys@[p]@ == self.keys@[p]@);
                }
                assert(mid.spec_stamp_of(k1) <= mid.spec_stamp_of(k2));
            }
        }
    }
}

/// Entry `p` of the rebuilt columns copies some original entry below
/// `bound` that the plan spares, stamp included.
spec fn kept_from(
    nk: Seq<String>,
    ne: Seq<CacheEntry>,
    ns: Seq<u64>,
    okeys: Seq<String>,
    oentries: Seq<CacheEntry>,
    ostamps: Seq<u64>,
    plan: Seq<usize>,
    p: int,
    bound: int,
) -> bool {
    exists|i3: int|
        0 <= i3 < bound && !plan.contains(i3 as usize) && nk[p]@ == (#[trigger] okeys[i3])@
            && ne[p].data@ == oentries[i3].data@ && ne[p].size == oentries[i3].size && ns[p]
            == ostamps[i3]
}

/// Original entry `i3` is accounted for: either the plan deletes it or
/// the rebuilt keys still carry it.
spec fn survives(nk: Seq<String>, okeys: Seq<String>, plan: Seq<usize>, i3: int) -> bool {
    plan.contains(i3 as usize) || exists|p: int|
        0 <= p < nk.len() && (#[trigger] nk[p])@ == okeys[i3]@
}

/// Whether a plan names the index.
fn plan_contains(plan: &Vec<usize>, x: usize) -> (r: bool)
    ensures
        r == plan@.contains(x),
{
    let n: usize = plan.len();
    let mut i: usize = 0;
    while i < n
        invariant
            n == plan@.len(),
            i <= n,
            forall|j: int| 0 <= j < i ==> plan@[j] != x,
        decreases n - i,
    {
        if plan[i] == x {
            assert(plan@.contains(x));
            return true;
        }
        i = i + 1;
    }
    proof {
        assert(!plan@.contains(x)) by {
            if plan@.contains(x) {
                let w = choose|w: int| 0 <= w < plan@.len() && plan@[w] == x;
            }
        }
    }
    false
}

} // verus!
