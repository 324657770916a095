//! Single-flight coordination for the conversion workers: per cache key,
//! at most one caller — the leader — runs the codec, while callers that
//! arrive before the leader finishes join as followers and wait for the
//! leader's result.

use vstd::prelude::*;
use vstd::utf8::encode_utf8;
use vstd::string::StringSliceAdditionalSpecFns;
use crate::ascii::bytes_eq;

verus! {

/// What a caller registering interest in a key becomes.
#[derive(Debug, Clone, Copy, PartialEq, Eq, Structural)]
pub enum FlightStatus {
    /// First in: this caller runs the codec and publishes the result.
    Leader,
    /// The key was already in flight: this caller waits for the leader.
    Follower,
}

/// The set of cache keys currently being converted.
pub struct InFlightTable {
    keys: Vec<String>,
}

impl InFlightTable {
    /// Well-formed: no key is registered twice.
    pub closed spec fn wf(&self) -> bool {
        forall|i: int, j: int|
            0 <= i < j < self.keys@.len() ==> encode_utf8(#[trigger] self.keys@[i]@)
                != encode_utf8(#[trigger] self.keys@[j]@)
    }

    /// Whether a conversion for the key is running.
    pub closed spec fn spec_in_flight(&self, key: Seq<u8>) -> bool {
        exists|i: int| 0 <= i < self.keys@.len() && encode_utf8(#[trigger] self.keys@[i]@) == key
    }

    /// An empty table: nothing is in flight.
    pub fn new() -> (r: InFlightTable)
        ensures
            r.wf(),
            forall|k: Seq<u8>| !r.spec_in_flight(k),
    {
        InFlightTable { keys: Vec::new() }
    }

    /// The index of a registered key, if present.
    fn find(&self, key: &str) -> (r: Option<usize>)
        requires
            self.wf(),
        ensures
            match r {
                Some(i) => (i as int) < self.keys@.len() && encode_utf8(self.keys@[i as int]@)
                    == key.spec_bytes(),
                None => !self.spec_in_flight(key.spec_bytes()),
            },
    {
        let n: usize = self.keys.len();
        let mut i: usize = 0;
        while i < n
            invariant
                n == self.keys@.len(),
                i <= n,
                forall|j: int|
                    0 <= j < i ==> encode_utf8(#[trigger] self.keys@[j]@) != key.spec_bytes(),
            decreases n - i,
        {
            if bytes_eq(self.keys[i].as_str().as_bytes(), key.as_bytes()) {
                return Some(i);
            }
            i = i + 1;
        }
        None
    }

    /// Registers a caller for a key. The caller is the leader exactly
    /// when the key was not in flight; afterwards the key is in flight
    /// either way, so two registrations without an intervening
    /// [`InFlightTable::finish`] never make two leaders.
    pub fn begin(&mut self, key: &str) -> (r: FlightStatus)
        requires
            old(self).wf(),
        ensures
            final(self).wf(),
            (r == FlightStatus::Leader) <==> !old(self).spec_in_flight(key.spec_bytes()),
            final(self).spec_in_flight(key.spec_bytes()),
            forall|k: Seq<u8>|
                k != key.spec_bytes() ==> final(self).spec_in_flight(k) == old(self)
                    .spec_in_flight(k),
    {
        match self.find(key) {
            Some(i) => {
                proof {
                    assert(encode_utf8(self.keys@[i as int]@) == key.spec_bytes());
                }
                FlightStatus::Follower
            },
            None => {
                let ghost pre = *self;
                self.keys.push(key.to_owned());
                proof {
                    let kb = key.spec_bytes();
                    assert(encode_utf8(self.keys@[self.keys@.len() - 1]@) == kb);
                    assert forall|k: Seq<u8>| k != kb implies final(self).spec_in_flight(k) == pre
                        .spec_in_flight(k) by {
                        if final(self).spec_in_flight(k) {
                            let w = choose|w: int|
                                0 <= w < self.keys@.len() && encode_utf8(
                                    #[trigger] self.keys@[w]@,
                                ) == k;
                            assert(w < pre.keys@.len());
                            assert(encode_utf8(pre.keys@[w]@) == k);
                        }
                        if pre.spec_in_flight(k) {
                            let w = choose|w: int|
                                0 <= w < pre.keys@.len() && encode_utf8(#[trigger] pre.keys@[w]@)
                                    == k;
                            assert(encode_utf8(self.keys@[w]@) == k);
                        }
                    }
                }
                FlightStatus::Leader
            },
        }
    }

    /// The leader publishes its result and withdraws the key: the next
    /// registration for it leads again.
    pub fn finish(&mut self, key: &str)
        requires
            old(self).wf(),
        ensures
            final(self).wf(),
            !final(self).spec_in_flight(key.spec_bytes()),
            forall|k: Seq<u8>|
                k != key.spec_bytes() ==> final(self).spec_in_flight(k) == old(self)
                    .spec_in_flight(k),
    {
        match self.find(key) {
            Some(i) => {
                let ghost pre = *self;
                self.keys.remove(i);
                proof {
                    let kb = key.spec_bytes();
                    assert(!final(self).spec_in_flight(kb)) by {
                        if final(self).spec_in_flight(kb) {
                            let w = choose|w: int|
                                0 <= w < self.keys@.len() && encode_utf8(
                                    #[trigger] self.keys@[w]@,
                                ) == kb;
                            if w < i as int {
                                assert(encode_utf8(pre.keys@[w]@) == kb);
                            } else {
                                assert(encode_utf8(pre.keys@[w + 1]@) == kb);
                            }
                        }
                    }
                    assert forall|k: Seq<u8>| k != kb implies final(self).spec_in_flight(k) == pre
                        .spec_in_flight(k) by {
                        if final(self).spec_in_flight(k) {
                            let w = choose|w: int|
                                0 <= w < self.keys@.len() && encode_utf8(
                                    #[trigger] self.keys@[w]@,
                                ) == k;
                            if w < i as int {
                                assert(encode_utf8(pre.keys@[w]@) == k);
                            } else {
                                assert(encode_utf8(pre.keys@[w + 1]@) == k);
                            }
                        }
                        if pre.spec_in_flight(k) {
                            let w = choose|w: int|
                                0 <= w < pre.keys@.len() && encode_utf8(#[trigger] pre.keys@[w]@)
                                    == k;
                            assert(w != i as int);
                            if w < i as int {
                                assert(encode_utf8(self.keys@[w]@) == k);
                            } else {
                                assert(encode_utf8(self.keys@[w - 1]@) == k);
                            }
                        }
                    }
                }
            },
            None => {},
        }
    }
}

} // verus!
