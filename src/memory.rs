//! The in-memory bucket: a map from keys to revision-stamped values, with a
//! change log that its watch streams read.

use vstd::prelude::*;

use crate::key::Key;
use crate::store::{
    decide_insert, insert_step, lemma_replay_concat, replay, Change, InsertStep,
    KeyValue, StoreError, StoreOutcome, WatchEvent,
};
use crate::text::copy_bytes;
use vstd::string::{StrSliceExecFns, StringSliceAdditionalSpecFns};

verus! {

/// What a bucket holds under `k`, if anything: its value and revision.
pub open spec fn lookup(m: Map<Seq<char>, (Seq<u8>, u64)>, k: Seq<char>) -> Option<(Seq<u8>, u64)> {
    if m.contains_key(k) {
        Some(m[k])
    } else {
        None
    }
}

/// The values of a bucket, without their revisions.
pub open spec fn values_of(m: Map<Seq<char>, (Seq<u8>, u64)>) -> Map<Seq<char>, Seq<u8>> {
    Map::new(|k: Seq<char>| m.contains_key(k), |k: Seq<char>| m[k].0)
}

/// The bucket's contents after an insert of `value` under `k` took `step`.
pub open spec fn contents_after_insert(
    m: Map<Seq<char>, (Seq<u8>, u64)>,
    k: Seq<char>,
    value: Seq<u8>,
    step: InsertStep,
) -> Map<Seq<char>, (Seq<u8>, u64)> {
    match step {
        InsertStep::Write(rev) => m.insert(k, (value, rev)),
        _ => m,
    }
}

/// What an insert that took `step` reports.
pub open spec fn insert_report(step: InsertStep) -> Option<StoreOutcome> {
    match step {
        InsertStep::Write(rev) => Some(StoreOutcome::Created(rev)),
        InsertStep::Keep(rev) => Some(StoreOutcome::Exists(rev)),
        InsertStep::Stale => None,
    }
}

/// Whether the pairs of `s` are exactly the entries of `m`, each key once.
pub open spec fn lists_exactly(s: Seq<(Seq<char>, Seq<u8>)>, m: Map<Seq<char>, Seq<u8>>) -> bool {
    &&& forall|i: int, j: int| 0 <= i < j < s.len() ==> s[i].0 != s[j].0
    &&& forall|i: int| 0 <= i < s.len() ==> m.contains_key(#[trigger] s[i].0) && m[s[i].0] == s[i].1
    &&& forall|k: Seq<char>| m.contains_key(k) ==> exists|i: int| 0 <= i < s.len() && #[trigger] s[i].0 == k
}

/// The events that a stream over a snapshot `s` yields first.
pub open spec fn puts_of(s: Seq<(Seq<char>, Seq<u8>)>) -> Seq<Change> {
    s.map_values(|p: (Seq<char>, Seq<u8>)| Change::Put(p.0, p.1))
}

/// What an insert of `v` under `k` at `revision`, reporting `r`, made of
/// `before`: it follows `insert_step`; a write reports `Created` and is logged
/// as a `Put`, an entry that already holds the value at that revision reports
/// `Exists`, and a stale revision reports `Retry`; the last two change nothing.
pub open spec fn insert_post(
    before: MemoryBucket,
    after: MemoryBucket,
    k: Seq<char>,
    v: Seq<u8>,
    revision: u64,
    r: Result<StoreOutcome, StoreError>,
) -> bool {
    let step = insert_step(lookup(before.contents(), k), v, revision);
    &&& after.wf()
    &&& after.name_view() == before.name_view()
    &&& after.ttl_view() == before.ttl_view()
    &&& after.contents() == contents_after_insert(before.contents(), k, v, step)
    &&& match insert_report(step) {
        Some(o) => r == Ok::<StoreOutcome, StoreError>(o),
        None => r matches Err(StoreError::Retry),
    }
    &&& after.history() == if step is Write {
        before.history().push(Change::Put(k, v))
    } else {
        before.history()
    }
}

/// What removing `k` made of `before`: the key is gone, and if it was there,
/// a `Delete` with the value it held is logged.
pub open spec fn delete_post(before: MemoryBucket, after: MemoryBucket, k: Seq<char>) -> bool {
    &&& after.wf()
    &&& after.name_view() == before.name_view()
    &&& after.ttl_view() == before.ttl_view()
    &&& after.contents() == before.contents().remove(k)
    &&& after.history() == if before.contents().contains_key(k) {
        before.history().push(Change::Delete(k, before.contents()[k].0))
    } else {
        before.history()
    }
}

struct Entry {
    key: String,
    value: Vec<u8>,
    revision: u64,
}

/// A named collection of revision-stamped entries held in memory. The
/// bucket's TTL is recorded for callers; entries held in memory do not expire.
pub struct MemoryBucket {
    name: String,
    ttl: Option<u64>,
    entries: Vec<Entry>,
    log: Vec<WatchEvent>,
    contents: Ghost<Map<Seq<char>, (Seq<u8>, u64)>>,
}

/// A position in a bucket's changes: what a watcher has still to receive.
pub struct WatchStream {
    pending: Vec<WatchEvent>,
    position: usize,
}

impl WatchStream {
    /// The snapshot events not yet handed out.
    pub closed spec fn pending(&self) -> Seq<Change> {
        self.pending@.map_values(|e: WatchEvent| e@)
    }

    /// How many of the bucket's changes the stream has passed.
    pub closed spec fn position(&self) -> nat {
        self.position as nat
    }

    /// The events that the stream yields, in order, given the bucket's change log.
    pub open spec fn upcoming(&self, history: Seq<Change>) -> Seq<Change> {
        self.pending() + if self.position() <= history.len() {
            history.skip(self.position() as int)
        } else {
            Seq::empty()
        }
    }
}

impl MemoryBucket {
    /// Every key of the bucket, with its value and revision.
    pub closed spec fn contents(&self) -> Map<Seq<char>, (Seq<u8>, u64)> {
        self.contents@
    }

    /// Every change made to the bucket, oldest first.
    pub closed spec fn history(&self) -> Seq<Change> {
        self.log@.map_values(|e: WatchEvent| e@)
    }

    /// The bucket's name.
    pub closed spec fn name_view(&self) -> Seq<char> {
        self.name@
    }

    /// The time to live of the bucket's entries, in seconds, if any.
    pub closed spec fn ttl_view(&self) -> Option<u64> {
        self.ttl
    }

    /// The entry vector holds each key once and agrees with the contents, and
    /// replaying the change log from an empty bucket gives its values.
    pub closed spec fn wf(&self) -> bool {
        &&& forall|i: int, j: int|
            0 <= i < j < self.entries@.len() ==> self.entries@[i].key@ != self.entries@[j].key@
        &&& forall|i: int|
            0 <= i < self.entries@.len() ==> {
                let e = #[trigger] self.entries@[i];
                self.contents@.contains_key(e.key@) && self.contents@[e.key@] == (
                    e.value@,
                    e.revision,
                )
            }
        &&& forall|k: Seq<char>|
            self.contents@.contains_key(k) ==> exists|i: int|
                0 <= i < self.entries@.len() && #[trigger] self.entries@[i].key@ == k
        &&& values_of(self.contents@) == replay(Map::empty(), self.history())
    }

    /// An empty bucket.
    pub fn new(name: &str, ttl: Option<u64>) -> (b: MemoryBucket)
        ensures
            b.wf(),
            b.name_view() == name@,
            b.ttl_view() == ttl,
            b.contents() == Map::<Seq<char>, (Seq<u8>, u64)>::empty(),
            b.history() == Seq::<Change>::empty(),
    {
        let b = MemoryBucket {
            name: String::from_str(name),
            ttl,
            entries: Vec::new(),
            log: Vec::new(),
            contents: Ghost(Map::empty()),
        };
        assert(b.history() == Seq::<Change>::empty());
        assert(values_of(b.contents@) == Map::<Seq<char>, Seq<u8>>::empty());
        b
    }

    /// The bucket's name.
    pub fn name(&self) -> (r: &str)
        ensures
            r@ == self.name_view(),
    {
        self.name.as_str()
    }

    /// Whether the bucket is called `name`.
    pub fn is_named(&self, name: &String) -> (r: bool)
        ensures
            r == (self.name_view() == name@),
    {
        self.name == *name
    }

    /// The time to live of the bucket's entries, in seconds, if any.
    pub fn ttl(&self) -> (r: Option<u64>)
        ensures
            r == self.ttl_view(),
    {
        self.ttl
    }

    /// Inserts `value` under `key`, stamped with `revision`, following
    /// `insert_step`: a write reports `Created` and is logged as a `Put`, an
    /// entry that already holds the value at that revision reports `Exists`,
    /// and a stale revision reports `Retry`; neither of the last two changes
    /// anything.
    pub fn insert(&mut self, key: &Key, value: &str, revision: u64) -> (r: Result<
        StoreOutcome,
        StoreError,
    >)
        requires
            old(self).wf(),
        ensures
            insert_post(*old(self), *final(self), key@, value.spec_bytes(), revision, r),
    {
        let k = key.to_string();
        let bytes = value.as_bytes_vec();
        let found = self.find(&k);
        let step = match found {
            Some(i) => decide_insert(
                Some((self.entries[i].value.as_slice(), self.entries[i].revision)),
                bytes.as_slice(),
                revision,
            ),
            None => decide_insert(None, bytes.as_slice(), revision),
        };
        proof {
            if let Some(i) = found {
                let e = self.entries@[i as int];
                assert(lookup(self.contents@, k@) == Some((e.value@, e.revision)));
            }
        }
        match step {
            InsertStep::Write(rev) => {
                let ghost old_self = *self;
                let entry = Entry { key: k.clone(), value: copy_bytes(&bytes), revision: rev };
                match found {
                    Some(i) => {
                        self.entries.set(i, entry);
                    },
                    None => {
                        self.entries.push(entry);
                    },
                }
                let ghost ev = Change::Put(k@, bytes@);
                self.log.push(WatchEvent::Put(KeyValue::new(k, bytes)));
                self.contents = Ghost(self.contents@.insert(key@, (value.spec_bytes(), rev)));
                proof {
                    let f = |e: WatchEvent| e@;
                    assert(self.log@ == old_self.log@.push(self.log@.last()));
                    assert(self.history() == old_self.history().push(ev)) by {
                        assert(self.log@.map_values(f) =~= old_self.log@.map_values(f).push(ev));
                    }
                    if let Some(i) = found {
                        assert(old_self.entries@[i as int].key@ == k@);
                        assert(self.entries@ == old_self.entries@.update(i as int, self.entries@[i as int]));
                    } else {
                        assert(self.entries@ == old_self.entries@.push(self.entries@.last()));
                    }
                    self.lemma_write_keeps_wf(old_self, key@, value.spec_bytes(), rev);
                }
                Ok(StoreOutcome::Created(rev))
            },
            InsertStep::Keep(rev) => Ok(StoreOutcome::Exists(rev)),
            InsertStep::Stale => Err(StoreError::Retry),
        }
    }

    proof fn lemma_write_keeps_wf(&self, old_self: MemoryBucket, k: Seq<char>, v: Seq<u8>, rev: u64)
        requires
            old_self.wf(),
            self.contents@ == old_self.contents@.insert(k, (v, rev)),
            self.history() == old_self.history().push(Change::Put(k, v)),
            old_self.contents@.contains_key(k) ==> exists|i: int|
                0 <= i < old_self.entries@.len() && old_self.entries@[i].key@ == k
                    && self.entries@ == old_self.entries@.update(
                    i,
                    self.entries@[i],
                ) && self.entries@[i].key@ == k && self.entries@[i].value@ == v
                    && self.entries@[i].revision == rev,
            !old_self.contents@.contains_key(k) ==> self.entries@.len() > 0 && self.entries@ == old_self.entries@.push(
                self.entries@.last(),
            ) && self.entries@.last().key@ == k && self.entries@.last().value@ == v
                && self.entries@.last().revision == rev,
        ensures
            self.wf(),
    {
        let n = old_self.entries@.len();
        if old_self.contents@.contains_key(k) {
            let i = choose|i: int|
                0 <= i < old_self.entries@.len() && old_self.entries@[i].key@ == k
                    && self.entries@ == old_self.entries@.update(i, self.entries@[i])
                    && self.entries@[i].key@ == k && self.entries@[i].value@ == v
                    && self.entries@[i].revision == rev;
            assert forall|a: int, b: int| 0 <= a < b < self.entries@.len() implies self.entries@[a].key@
                != self.entries@[b].key@ by {
                if a != i && b != i {
                    assert(old_self.entries@[a] == self.entries@[a]);
                    assert(old_self.entries@[b] == self.entries@[b]);
                }
                else if a == i {
                    assert(old_self.entries@[b] == self.entries@[b]);
                } else {
                    assert(old_self.entries@[a] == self.entries@[a]);
                }
            }
            assert forall|j: int| 0 <= j < self.entries@.len() implies {
                let e = #[trigger] self.entries@[j];
                self.contents@.contains_key(e.key@) && self.contents@[e.key@] == (e.value@, e.revision)
            } by {
                if j != i {
                    assert(old_self.entries@[j] == self.entries@[j]);
                }
            }
            assert forall|kk: Seq<char>| self.contents@.contains_key(kk) implies exists|j: int|
                0 <= j < self.entries@.len() && #[trigger] self.entries@[j].key@ == kk by {
                if kk == k {
                    assert(self.entries@[i].key@ == kk);
                } else {
                    let j = choose|j: int|
                        0 <= j < old_self.entries@.len() && #[trigger] old_self.entries@[j].key@ == kk;
                    assert(self.entries@[j] == old_self.entries@[j]);
                }
            }
        } else {
            assert forall|a: int, b: int| 0 <= a < b < self.entries@.len() implies self.entries@[a].key@
                != self.entries@[b].key@ by {
                assert(old_self.entries@[a] == self.entries@[a]);
                if b < n {
                    assert(old_self.entries@[b] == self.entries@[b]);
                } else {
                    let ea = old_self.entries@[a];
                    assert(old_self.contents@.contains_key(ea.key@));
                }
            }
            assert forall|j: int| 0 <= j < self.entries@.len() implies {
                let e = #[trigger] self.entries@[j];
                self.contents@.contains_key(e.key@) && self.contents@[e.key@] == (e.value@, e.revision)
            } by {
                if j < n {
                    assert(old_self.entries@[j] == self.entries@[j]);
                    let e = old_self.entries@[j];
                    assert(old_self.contents@.contains_key(e.key@));
                }
            }
            assert forall|kk: Seq<char>| self.contents@.contains_key(kk) implies exists|j: int|
                0 <= j < self.entries@.len() && #[trigger] self.entries@[j].key@ == kk by {
                if kk == k {
                    assert(self.entries@[n as int].key@ == kk);
                } else {
                    let j = choose|j: int|
                        0 <= j < old_self.entries@.len() && #[trigger] old_self.entries@[j].key@ == kk;
                    assert(self.entries@[j] == old_self.entries@[j]);
                }
            }
        }
        assert(self.history().drop_last() == old_self.history());
        assert(values_of(self.contents@) =~= values_of(old_self.contents@).insert(k, v));
    }

    /// The value stored under `key`, if any.
    pub fn get(&self, key: &Key) -> (r: Option<Vec<u8>>)
        requires
            self.wf(),
        ensures
            match r {
                Some(v) => self.contents().contains_key(key@) && v@ == self.contents()[key@].0,
                None => !self.contents().contains_key(key@),
            },
    {
        let k = key.to_string();
        match self.find(&k) {
            Some(i) => {
                proof {
                    let e = self.entries@[i as int];
                    assert(self.contents@.contains_key(e.key@));
                }
                Some(copy_bytes(&self.entries[i].value))
            },
            None => None,
        }
    }

    /// Removes `key` from the bucket. Removing a key that is there is logged
    /// as a `Delete` with the value it held; removing one that is not there
    /// changes nothing.
    pub fn delete(&mut self, key: &Key)
        requires
            old(self).wf(),
        ensures
            delete_post(*old(self), *final(self), key@),
    {
        let k = key.to_string();
        match self.find(&k) {
            Some(i) => {
                let ghost old_self = *self;
                proof {
                    let e = self.entries@[i as int];
                    assert(self.contents@.contains_key(e.key@));
                }
                let removed = self.entries.remove(i);
                let ghost ev = Change::Delete(k@, removed.value@);
                self.log.push(WatchEvent::Delete(KeyValue::new(k, removed.value)));
                self.contents = Ghost(self.contents@.remove(key@));
                proof {
                    let f = |e: WatchEvent| e@;
                    assert(self.log@ == old_self.log@.push(self.log@.last()));
                    assert(self.history() == old_self.history().push(ev)) by {
                        assert(self.log@.map_values(f) =~= old_self.log@.map_values(f).push(ev));
                    }
                    self.lemma_remove_keeps_wf(old_self, key@, i as int);
                }
            },
            None => {
                assert(self.contents@.remove(key@) =~= self.contents@);
            },
        }
    }

    proof fn lemma_remove_keeps_wf(&self, old_self: MemoryBucket, k: Seq<char>, i: int)
        requires
            old_self.wf(),
            0 <= i < old_self.entries@.len(),
            old_self.entries@[i].key@ == k,
            self.entries@ == old_self.entries@.remove(i),
            self.contents@ == old_self.contents@.remove(k),
            self.history() == old_self.history().push(Change::Delete(k, old_self.entries@[i].value@)),
        ensures
            self.wf(),
    {
        let n = old_self.entries@.len();
        assert forall|a: int, b: int| 0 <= a < b < self.entries@.len() implies self.entries@[a].key@
            != self.entries@[b].key@ by {
            let oa = if a < i { a } else { a + 1 };
            let ob = if b < i { b } else { b + 1 };
            assert(self.entries@[a] == old_self.entries@[oa]);
            assert(self.entries@[b] == old_self.entries@[ob]);
        }
        assert forall|j: int| 0 <= j < self.entries@.len() implies {
            let e = #[trigger] self.entries@[j];
            self.contents@.contains_key(e.key@) && self.contents@[e.key@] == (e.value@, e.revision)
        } by {
            let oj = if j < i { j } else { j + 1 };
            assert(self.entries@[j] == old_self.entries@[oj]);
            let e = old_self.entries@[oj];
            assert(old_self.contents@.contains_key(e.key@));
        }
        assert forall|kk: Seq<char>| self.contents@.contains_key(kk) implies exists|j: int|
            0 <= j < self.entries@.len() && #[trigger] self.entries@[j].key@ == kk by {
            let oj = choose|j: int| 0 <= j < old_self.entries@.len() && #[trigger] old_self.entries@[j].key@ == kk;
            assert(oj != i);
            if oj < i {
                assert(self.entries@[oj] == old_self.entries@[oj]);
            } else {
                assert(self.entries@[oj - 1] == old_self.entries@[oj]);
            }
        }
        assert(self.history().drop_last() == old_self.history());
        assert(values_of(self.contents@) =~= values_of(old_self.contents@).remove(k));
    }

    /// Every key of the bucket with its value, each key once, in no promised order.
    pub fn entries(&self) -> (r: Vec<KeyValue>)
        requires
            self.wf(),
        ensures
            lists_exactly(r@.map_values(|kv: KeyValue| kv@), values_of(self.contents())),
    {
        let mut out: Vec<KeyValue> = Vec::new();
        let mut i: usize = 0;
        while i < self.entries.len()
            invariant
                self.wf(),
                i <= self.entries@.len(),
                out@.len() == i,
                forall|j: int|
                    0 <= j < i ==> #[trigger] out@[j]@ == (
                        self.entries@[j].key@,
                        self.entries@[j].value@,
                    ),
            decreases self.entries@.len() - i,
        {
            let e = &self.entries[i];
            out.push(KeyValue::new(e.key.clone(), copy_bytes(&e.value)));
            i = i + 1;
        }
        proof {
            let s = out@.map_values(|kv: KeyValue| kv@);
            let m = values_of(self.contents@);
            assert forall|a: int, b: int| 0 <= a < b < s.len() implies s[a].0 != s[b].0 by {
                assert(s[a] == out@[a]@);
                assert(s[b] == out@[b]@);
            }
            assert forall|a: int| 0 <= a < s.len() implies m.contains_key(#[trigger] s[a].0) && m[s[a].0]
                == s[a].1 by {
                assert(s[a] == out@[a]@);
                let e = self.entries@[a];
                assert(self.contents@.contains_key(e.key@));
            }
            assert forall|k: Seq<char>| m.contains_key(k) implies exists|a: int|
                0 <= a < s.len() && #[trigger] s[a].0 == k by {
                assert(self.contents@.contains_key(k));
                let j = choose|j: int| 0 <= j < self.entries@.len() && #[trigger] self.entries@[j].key@ == k;
                assert(s[j] == out@[j]@);
                assert(s[j].0 == k);
            }
        }
        out
    }

    /// Opens a stream over the bucket: it yields a `Put` for every entry that
    /// the bucket holds now, then every change made from now on, in order.
    pub fn watch(&self) -> (r: WatchStream)
        requires
            self.wf(),
        ensures
            r.position() == self.history().len(),
            exists|s: Seq<(Seq<char>, Seq<u8>)>|
                lists_exactly(s, values_of(self.contents())) && r.pending() == puts_of(s),
    {
        let snapshot = self.entries();
        let mut pending: Vec<WatchEvent> = Vec::new();
        let mut i: usize = 0;
        let ghost s = snapshot@.map_values(|kv: KeyValue| kv@);
        while i < snapshot.len()
            invariant
                i <= snapshot@.len(),
                s == snapshot@.map_values(|kv: KeyValue| kv@),
                pending@.map_values(|e: WatchEvent| e@) == puts_of(s.subrange(0, i as int)),
            decreases snapshot@.len() - i,
        {
            let ghost before = pending@;
            pending.push(WatchEvent::Put(snapshot[i].clone()));
            i = i + 1;
            proof {
                let f = |e: WatchEvent| e@;
                assert(pending@ == before.push(pending@.last()));
                assert(s.subrange(0, i as int) == s.subrange(0, i - 1).push(s[i - 1]));
                assert(pending@.map_values(f) =~= before.map_values(f).push(pending@.last()@));
                assert(puts_of(s.subrange(0, i as int)) =~= puts_of(s.subrange(0, i - 1)).push(
                    Change::Put(s[i - 1].0, s[i - 1].1),
                ));
            }
        }
        assert(s.subrange(0, s.len() as int) == s);
        WatchStream { pending, position: self.log.len() }
    }

    /// The next event of `stream`, if there is one yet: the first of its
    /// `upcoming` events, which the stream then passes.
    pub fn next_event(&self, stream: &mut WatchStream) -> (r: Option<WatchEvent>)
        ensures
            ({
                let u = old(stream).upcoming(self.history());
                if u.len() == 0 {
                    &&& r is None
                    &&& final(stream).upcoming(self.history()) == u
                } else {
                    &&& r is Some
                    &&& r->0@ == u[0]
                    &&& final(stream).upcoming(self.history()) == u.drop_first()
                }
            }),
    {
        let ghost h = self.history();
        let ghost u = stream.upcoming(h);
        let ghost f = |e: WatchEvent| e@;
        if stream.pending.len() > 0 {
            let ghost before = stream.pending@;
            let e = stream.pending.remove(0);
            proof {
                assert(stream.pending@.map_values(f) =~= before.map_values(f).drop_first());
                assert(u.drop_first() =~= stream.upcoming(h));
            }
            Some(e)
        } else if stream.position < self.log.len() {
            let e = self.log[stream.position].clone();
            stream.position = stream.position + 1;
            proof {
                assert(old(stream).pending() =~= Seq::<Change>::empty());
                assert(h[old(stream).position as int] == self.log@[old(stream).position as int]@);
                assert(u =~= h.skip(old(stream).position as int));
                assert(u.drop_first() =~= stream.upcoming(h));
            }
            Some(e)
        } else {
            proof {
                assert(old(stream).pending() =~= Seq::<Change>::empty());
                assert(u.len() == 0);
            }
            None
        }
    }

    /// Hands out every event of `stream` that is there yet, each once and in
    /// order.
    pub fn drain_events(&self, stream: &mut WatchStream) -> (r: Vec<WatchEvent>)
        ensures
            r@.map_values(|e: WatchEvent| e@) == old(stream).upcoming(self.history()),
            final(stream).upcoming(self.history()) == Seq::<Change>::empty(),
    {
        let ghost h = self.history();
        let ghost u0 = stream.upcoming(h);
        let mut out: Vec<WatchEvent> = Vec::new();
        loop
            invariant
                h == self.history(),
                u0 == old(stream).upcoming(h),
                out@.map_values(|e: WatchEvent| e@) + stream.upcoming(h) == u0,
            decreases stream.upcoming(h).len(),
        {
            let ghost u = stream.upcoming(h);
            match self.next_event(stream) {
                Some(e) => {
                    let ghost before = out@;
                    out.push(e);
                    proof {
                        let f = |e: WatchEvent| e@;
                        assert(out@.map_values(f) =~= before.map_values(f).push(u[0]));
                        assert(out@.map_values(f) + stream.upcoming(h) =~= before.map_values(f) + u);
                    }
                },
                None => {
                    assert(stream.upcoming(h).len() == 0);
                    assert(out@.map_values(|e: WatchEvent| e@) + stream.upcoming(h) =~= out@.map_values(|e: WatchEvent| e@));
                    assert(u0 == out@.map_values(|e: WatchEvent| e@));
                    return out;
                },
            }
        }
    }

    fn find(&self, key: &String) -> (r: Option<usize>)
        requires
            self.wf(),
        ensures
            match r {
                Some(i) => i < self.entries@.len() && self.entries@[i as int].key@ == key@,
                None => !self.contents@.contains_key(key@),
            },
    {
        let mut i: usize = 0;
        while i < self.entries.len()
            invariant
                self.wf(),
                i <= self.entries@.len(),
                forall|j: int| 0 <= j < i ==> self.entries@[j].key@ != key@,
            decreases self.entries@.len() - i,
        {
            if self.entries[i].key == *key {
                return Some(i);
            }
            i = i + 1;
        }
        None
    }
}

/// Whether `h` begins with `prefix`: the change log of a bucket only grows.
pub open spec fn extends(h: Seq<Change>, prefix: Seq<Change>) -> bool {
    prefix.len() <= h.len() && h.subrange(0, prefix.len() as int) == prefix
}

/// Inserting the same value under the same key at the same revision twice:
/// if the first call writes, it reports `Created` at that revision and the
/// second reports `Exists` at it; if the first keeps the entry, so does the
/// second; if the first finds the revision stale, so does the second. Left
/// out: an entry that holds another value at that very revision, where the
/// first call moves the entry to the next revision and the second is stale.
pub proof fn lemma_insert_idempotent(
    m: Map<Seq<char>, (Seq<u8>, u64)>,
    k: Seq<char>,
    v: Seq<u8>,
    rev: u64,
)
    requires
        !(m.contains_key(k) && m[k].1 == rev && m[k].0 != v),
    ensures
        ({
            let first = insert_step(lookup(m, k), v, rev);
            let second = insert_step(lookup(contents_after_insert(m, k, v, first), k), v, rev);
            &&& first is Write ==> insert_report(first) == Some(StoreOutcome::Created(rev))
                && insert_report(second) == Some(StoreOutcome::Exists(rev))
            &&& first is Keep ==> second == first
            &&& first is Stale ==> second is Stale
        }),
{
}

/// A snapshot of a bucket's values, with every change made after it replayed
/// on top, is the bucket's later state: snapshot-then-watch loses nothing.
pub proof fn lemma_snapshot_then_watch(before: MemoryBucket, after: MemoryBucket)
    requires
        before.wf(),
        after.wf(),
        extends(after.history(), before.history()),
    ensures
        replay(values_of(before.contents()), after.history().skip(before.history().len() as int))
            == values_of(after.contents()),
{
    let hb = before.history();
    let ha = after.history();
    assert(ha == hb + ha.skip(hb.len() as int));
    lemma_replay_concat(Map::empty(), hb, ha.skip(hb.len() as int));
}

/// Replaying a `Put` for each pair of a listing of `m`, from an empty map, gives `m`.
pub proof fn lemma_replay_puts(s: Seq<(Seq<char>, Seq<u8>)>, m: Map<Seq<char>, Seq<u8>>)
    requires
        lists_exactly(s, m),
    ensures
        replay(Map::empty(), puts_of(s)) == m,
    decreases s.len(),
{
    if s.len() == 0 {
        assert(m =~= Map::empty()) by {
            assert forall|k: Seq<char>| !m.contains_key(k) by {
                if m.contains_key(k) {
                    let i = choose|i: int| 0 <= i < s.len() && #[trigger] s[i].0 == k;
                }
            }
        }
    } else {
        let last = s.last();
        let rest = s.drop_last();
        let mr = m.remove(last.0);
        assert(lists_exactly(rest, mr)) by {
            assert forall|i: int| 0 <= i < rest.len() implies mr.contains_key(#[trigger] rest[i].0) && mr[rest[i].0]
                == rest[i].1 by {
                assert(rest[i] == s[i]);
                assert(s[i].0 != s[s.len() - 1].0);
            }
            assert forall|k: Seq<char>| mr.contains_key(k) implies exists|i: int|
                0 <= i < rest.len() && #[trigger] rest[i].0 == k by {
                let i = choose|i: int| 0 <= i < s.len() && #[trigger] s[i].0 == k;
                assert(i != s.len() - 1);
                assert(rest[i] == s[i]);
            }
        }
        lemma_replay_puts(rest, mr);
        assert(puts_of(s).drop_last() =~= puts_of(rest));
        assert(m.contains_key(s[s.len() - 1].0));
        assert(mr.insert(last.0, last.1) =~= m);
    }
}

/// A stream opened on `before` and read on `after` yields the snapshot of
/// `before` and then every change made since, so replaying all it yields from
/// an empty map gives the values of `after`.
pub proof fn lemma_watch_covers_final_state(
    before: MemoryBucket,
    after: MemoryBucket,
    stream: WatchStream,
)
    requires
        before.wf(),
        after.wf(),
        extends(after.history(), before.history()),
        stream.position() == before.history().len(),
        exists|s: Seq<(Seq<char>, Seq<u8>)>|
            lists_exactly(s, values_of(before.contents())) && stream.pending() == puts_of(s),
    ensures
        replay(Map::empty(), stream.upcoming(after.history())) == values_of(after.contents()),
{
    let s = choose|s: Seq<(Seq<char>, Seq<u8>)>|
        lists_exactly(s, values_of(before.contents())) && stream.pending() == puts_of(s);
    lemma_replay_puts(s, values_of(before.contents()));
    let rest = after.history().skip(before.history().len() as int);
    lemma_replay_concat(Map::empty(), puts_of(s), rest);
    lemma_snapshot_then_watch(before, after);
}

/// A watcher that starts on a bucket no writer has touched receives every
/// change made to it afterwards, each exactly once and in the order made.
pub proof fn lemma_watcher_receives_every_change(
    before: MemoryBucket,
    after: MemoryBucket,
    stream: WatchStream,
)
    requires
        before.wf(),
        before.history().len() == 0,
        after.wf(),
        stream.position() == 0,
        exists|s: Seq<(Seq<char>, Seq<u8>)>|
            lists_exactly(s, values_of(before.contents())) && stream.pending() == puts_of(s),
    ensures
        stream.upcoming(after.history()) == after.history(),
{
    let s = choose|s: Seq<(Seq<char>, Seq<u8>)>|
        lists_exactly(s, values_of(before.contents())) && stream.pending() == puts_of(s);
    assert(values_of(before.contents()) == Map::<Seq<char>, Seq<u8>>::empty());
    if s.len() > 0 {
        assert(values_of(before.contents()).contains_key(s[0].0));
    }
    assert(stream.pending() =~= Seq::<Change>::empty());
    assert(after.history().skip(0) == after.history());
    assert(stream.upcoming(after.history()) =~= after.history());
}

} // verus!
