//! The stores behind a key-value store manager: the in-memory store, which
//! holds its buckets here, and the remote ones, whose buckets live on a
//! server that the connection reaches.

use vstd::prelude::*;

use crate::key::Key;
use crate::memory::{
    contents_after_insert, delete_post, insert_post, insert_report, lists_exactly, lookup, puts_of,
    values_of, MemoryBucket, WatchStream,
};
use crate::store::{insert_step, outcome_revision, Change, StoreError, StoreOutcome};
use vstd::string::StringSliceAdditionalSpecFns;

verus! {

/// An object that carries the revision at which it was last stored.
pub trait Versioned {
    /// The revision the object carries, in the model.
    spec fn revision_view(&self) -> u64;

    /// The revision the object carries.
    fn revision(&self) -> (r: u64)
        ensures
            r == self.revision_view(),
    ;

    /// Makes the object carry revision `r`.
    fn set_revision(&mut self, r: u64)
        ensures
            final(self).revision_view() == r,
    ;
}

/// Buckets held in memory, by name.
pub struct MemoryStore {
    buckets: Vec<MemoryBucket>,
    connection_id: u64,
}

impl MemoryStore {
    /// Whether the store holds a bucket called `name`.
    pub closed spec fn has_bucket(&self, name: Seq<char>) -> bool {
        exists|i: int| 0 <= i < self.buckets@.len() && #[trigger] self.buckets@[i].name_view() == name
    }

    /// The bucket called `name`, where the store holds one.
    pub closed spec fn bucket(&self, name: Seq<char>) -> MemoryBucket {
        let i = choose|i: int| 0 <= i < self.buckets@.len() && #[trigger] self.buckets@[i].name_view() == name;
        self.buckets@[i]
    }

    /// The identifier of the store's connection.
    pub closed spec fn connection_view(&self) -> u64 {
        self.connection_id
    }

    /// Each bucket is well formed and no two share a name.
    pub closed spec fn wf(&self) -> bool {
        &&& forall|i: int| 0 <= i < self.buckets@.len() ==> (#[trigger] self.buckets@[i]).wf()
        &&& forall|i: int, j: int|
            0 <= i < j < self.buckets@.len() ==> self.buckets@[i].name_view()
                != self.buckets@[j].name_view()
    }

    /// Whether `after` holds the same buckets as `before` under every name but `name`.
    pub open spec fn others_unchanged(before: MemoryStore, after: MemoryStore, name: Seq<char>) -> bool {
        &&& after.connection_view() == before.connection_view()
        &&& forall|n: Seq<char>| n != name ==> after.has_bucket(n) == before.has_bucket(n)
        &&& forall|n: Seq<char>| n != name && #[trigger] before.has_bucket(n) ==> after.bucket(n) == before.bucket(n)
    }

    /// An empty store. It is in-process, so its connection id is zero.
    pub fn new() -> (r: MemoryStore)
        ensures
            r.wf(),
            r.connection_view() == 0,
            forall|n: Seq<char>| !r.has_bucket(n),
    {
        MemoryStore { buckets: Vec::new(), connection_id: 0 }
    }

    /// The identifier of the store's connection.
    pub fn connection_id(&self) -> (r: u64)
        ensures
            r == self.connection_view(),
    {
        self.connection_id
    }

    proof fn lemma_bucket_at(&self, i: int)
        requires
            self.wf(),
            0 <= i < self.buckets@.len(),
        ensures
            self.has_bucket(self.buckets@[i].name_view()),
            self.bucket(self.buckets@[i].name_view()) == self.buckets@[i],
    {
        let name = self.buckets@[i].name_view();
        assert(self.buckets@[i].name_view() == name);
        let j = choose|j: int| 0 <= j < self.buckets@.len() && #[trigger] self.buckets@[j].name_view() == name;
        if j != i {
            if j < i {
                assert(self.buckets@[j].name_view() != self.buckets@[i].name_view());
            } else {
                assert(self.buckets@[i].name_view() != self.buckets@[j].name_view());
            }
        }
    }

    fn find(&self, name: &str) -> (r: Option<usize>)
        requires
            self.wf(),
        ensures
            match r {
                Some(i) => i < self.buckets@.len() && self.buckets@[i as int].name_view() == name@
                    && self.has_bucket(name@) && self.bucket(name@) == self.buckets@[i as int],
                None => !self.has_bucket(name@),
            },
    {
        let target = String::from_str(name);
        let mut i: usize = 0;
        while i < self.buckets.len()
            invariant
                self.wf(),
                target@ == name@,
                i <= self.buckets@.len(),
                forall|j: int| 0 <= j < i ==> self.buckets@[j].name_view() != name@,
            decreases self.buckets@.len() - i,
        {
            if self.buckets[i].is_named(&target) {
                proof {
                    self.lemma_bucket_at(i as int);
                }
                return Some(i);
            }
            i = i + 1;
        }
        None
    }

    /// The bucket called `name`, if the store holds one.
    pub fn get_bucket(&self, name: &str) -> (r: Option<&MemoryBucket>)
        requires
            self.wf(),
        ensures
            match r {
                Some(b) => self.has_bucket(name@) && *b == self.bucket(name@) && b.wf(),
                None => !self.has_bucket(name@),
            },
    {
        match self.find(name) {
            Some(i) => Some(&self.buckets[i]),
            None => None,
        }
    }

    /// Makes sure that a bucket called `name` exists: an existing one is left
    /// as it is, else an empty one is made whose entries live for `ttl`
    /// seconds, if given.
    pub fn get_or_create_bucket(&mut self, name: &str, ttl: Option<u64>)
        requires
            old(self).wf(),
        ensures
            final(self).wf(),
            final(self).has_bucket(name@),
            old(self).has_bucket(name@) ==> final(self).bucket(name@) == old(self).bucket(name@),
            !old(self).has_bucket(name@) ==> {
                let b = final(self).bucket(name@);
                &&& b.ttl_view() == ttl
                &&& b.contents() == Map::<Seq<char>, (Seq<u8>, u64)>::empty()
                &&& b.history() == Seq::<Change>::empty()
            },
            Self::others_unchanged(*old(self), *final(self), name@),
    {
        match self.find(name) {
            Some(_) => {},
            None => {
                let ghost old_self = *self;
                self.buckets.push(MemoryBucket::new(name, ttl));
                proof {
                    let n = old_self.buckets@.len() as int;
                    assert forall|i: int, j: int| 0 <= i < j < self.buckets@.len() implies self.buckets@[i].name_view()
                        != self.buckets@[j].name_view() by {
                        assert(self.buckets@[i] == old_self.buckets@[i]);
                        if j < n {
                            assert(self.buckets@[j] == old_self.buckets@[j]);
                        }
                    }
                    assert forall|i: int| 0 <= i < self.buckets@.len() implies (#[trigger] self.buckets@[i]).wf() by {
                        if i < n {
                            assert(self.buckets@[i] == old_self.buckets@[i]);
                        }
                    }
                    self.lemma_bucket_at(n);
                    self.lemma_push_keeps_others(old_self, name@);
                }
            },
        }
    }

    proof fn lemma_push_keeps_others(&self, old_self: MemoryStore, name: Seq<char>)
        requires
            old_self.wf(),
            self.wf(),
            self.buckets@.len() == old_self.buckets@.len() + 1,
            forall|i: int| 0 <= i < old_self.buckets@.len() ==> self.buckets@[i] == old_self.buckets@[i],
            self.buckets@.last().name_view() == name,
            self.connection_id == old_self.connection_id,
        ensures
            Self::others_unchanged(old_self, *self, name),
    {
        assert forall|n: Seq<char>| n != name implies self.has_bucket(n) == old_self.has_bucket(n) by {
            if self.has_bucket(n) {
                let i = choose|i: int| 0 <= i < self.buckets@.len() && #[trigger] self.buckets@[i].name_view() == n;
                assert(old_self.buckets@[i].name_view() == n);
            }
            if old_self.has_bucket(n) {
                let i = choose|i: int| 0 <= i < old_self.buckets@.len() && #[trigger] old_self.buckets@[i].name_view() == n;
                assert(self.buckets@[i].name_view() == n);
            }
        }
        assert forall|n: Seq<char>| n != name && #[trigger] old_self.has_bucket(n) implies self.bucket(n)
            == old_self.bucket(n) by {
            let i = choose|i: int| 0 <= i < old_self.buckets@.len() && #[trigger] old_self.buckets@[i].name_view() == n;
            old_self.lemma_bucket_at(i);
            self.lemma_bucket_at(i);
        }
    }

    proof fn lemma_replace_keeps_others(&self, old_self: MemoryStore, i: int)
        requires
            old_self.wf(),
            0 <= i < old_self.buckets@.len(),
            self.buckets@ == old_self.buckets@.update(i, self.buckets@[i]),
            self.buckets@[i].wf(),
            self.buckets@[i].name_view() == old_self.buckets@[i].name_view(),
            self.connection_id == old_self.connection_id,
        ensures
            self.wf(),
            self.has_bucket(old_self.buckets@[i].name_view()),
            self.bucket(old_self.buckets@[i].name_view()) == self.buckets@[i],
            Self::others_unchanged(old_self, *self, old_self.buckets@[i].name_view()),
    {
        let name = old_self.buckets@[i].name_view();
        assert forall|a: int| 0 <= a < self.buckets@.len() implies (#[trigger] self.buckets@[a]).wf() by {
            if a != i {
                assert(self.buckets@[a] == old_self.buckets@[a]);
            }
        }
        assert forall|a: int, b: int| 0 <= a < b < self.buckets@.len() implies self.buckets@[a].name_view()
            != self.buckets@[b].name_view() by {
            assert(self.buckets@[a].name_view() == old_self.buckets@[a].name_view());
            assert(self.buckets@[b].name_view() == old_self.buckets@[b].name_view());
        }
        self.lemma_bucket_at(i);
        assert forall|n: Seq<char>| n != name implies self.has_bucket(n) == old_self.has_bucket(n) by {
            if self.has_bucket(n) {
                let j = choose|j: int| 0 <= j < self.buckets@.len() && #[trigger] self.buckets@[j].name_view() == n;
                assert(old_self.buckets@[j].name_view() == n);
            }
            if old_self.has_bucket(n) {
                let j = choose|j: int| 0 <= j < old_self.buckets@.len() && #[trigger] old_self.buckets@[j].name_view() == n;
                assert(self.buckets@[j].name_view() == n);
            }
        }
        assert forall|n: Seq<char>| n != name && #[trigger] old_self.has_bucket(n) implies self.bucket(n)
            == old_self.bucket(n) by {
            let j = choose|j: int| 0 <= j < old_self.buckets@.len() && #[trigger] old_self.buckets@[j].name_view() == n;
            assert(j != i);
            assert(self.buckets@[j] == old_self.buckets@[j]);
            old_self.lemma_bucket_at(j);
            self.lemma_bucket_at(j);
        }
    }

    /// Inserts into the bucket called `bucket_name` (see `insert_post`), or
    /// reports `MissingBucket` with that name, changing nothing, if there is none.
    pub fn insert(&mut self, bucket_name: &str, key: &Key, value: &str, revision: u64) -> (r: Result<
        StoreOutcome,
        StoreError,
    >)
        requires
            old(self).wf(),
        ensures
            final(self).wf(),
            !old(self).has_bucket(bucket_name@) ==> *final(self) == *old(self) && (match r {
                Err(StoreError::MissingBucket(n)) => n@ == bucket_name@,
                _ => false,
            }),
            old(self).has_bucket(bucket_name@) ==> final(self).has_bucket(bucket_name@) && insert_post(
                old(self).bucket(bucket_name@),
                final(self).bucket(bucket_name@),
                key@,
                value.spec_bytes(),
                revision,
                r,
            ),
            Self::others_unchanged(*old(self), *final(self), bucket_name@),
    {
        match self.find(bucket_name) {
            None => Err(StoreError::MissingBucket(String::from_str(bucket_name))),
            Some(i) => {
                let ghost old_self = *self;
                let mut b = self.buckets.remove(i);
                let r = b.insert(key, value, revision);
                self.buckets.insert(i, b);
                proof {
                    assert(self.buckets@ =~= old_self.buckets@.update(i as int, self.buckets@[i as int]));
                    self.lemma_replace_keeps_others(old_self, i as int);
                }
                r
            },
        }
    }

    /// Removes `key` from the bucket called `bucket_name` (see `delete_post`),
    /// or reports `MissingBucket` with that name, changing nothing, if there is none.
    pub fn delete(&mut self, bucket_name: &str, key: &Key) -> (r: Result<(), StoreError>)
        requires
            old(self).wf(),
        ensures
            final(self).wf(),
            !old(self).has_bucket(bucket_name@) ==> *final(self) == *old(self) && (match r {
                Err(StoreError::MissingBucket(n)) => n@ == bucket_name@,
                _ => false,
            }),
            old(self).has_bucket(bucket_name@) ==> r is Ok && final(self).has_bucket(bucket_name@)
                && delete_post(old(self).bucket(bucket_name@), final(self).bucket(bucket_name@), key@),
            Self::others_unchanged(*old(self), *final(self), bucket_name@),
    {
        match self.find(bucket_name) {
            None => Err(StoreError::MissingBucket(String::from_str(bucket_name))),
            Some(i) => {
                let ghost old_self = *self;
                let mut b = self.buckets.remove(i);
                b.delete(key);
                self.buckets.insert(i, b);
                proof {
                    assert(self.buckets@ =~= old_self.buckets@.update(i as int, self.buckets@[i as int]));
                    self.lemma_replace_keeps_others(old_self, i as int);
                }
                Ok(())
            },
        }
    }
    /// The bytes stored under `key` in the bucket called `bucket_name`: none
    /// where there is no such bucket or no such key.
    pub fn load(&self, bucket_name: &str, key: &Key) -> (r: Option<Vec<u8>>)
        requires
            self.wf(),
        ensures
            match r {
                Some(v) => self.has_bucket(bucket_name@) && self.bucket(
                    bucket_name@,
                ).contents().contains_key(key@) && v@ == self.bucket(bucket_name@).contents()[key@].0,
                None => !self.has_bucket(bucket_name@) || !self.bucket(
                    bucket_name@,
                ).contents().contains_key(key@),
            },
    {
        match self.get_bucket(bucket_name) {
            None => None,
            Some(b) => b.get(key),
        }
    }

    /// What storing `v` under `k` at `revision` in the bucket called `name`
    /// (made first if missing, with `ttl`), reporting `r`, made of `before`:
    /// the bucket's insert (see `insert_post`) on the bucket as it was, or on
    /// an empty one. Where there was no bucket or no entry under `k`, the
    /// value is written at `revision`.
    pub open spec fn publish_post(
        before: MemoryStore,
        after: MemoryStore,
        name: Seq<char>,
        ttl: Option<u64>,
        k: Seq<char>,
        v: Seq<u8>,
        revision: u64,
        r: Result<StoreOutcome, StoreError>,
    ) -> bool {
        let had = before.has_bucket(name);
        let c0 = if had {
            before.bucket(name).contents()
        } else {
            Map::empty()
        };
        let h0 = if had {
            before.bucket(name).history()
        } else {
            Seq::empty()
        };
        let step = insert_step(lookup(c0, k), v, revision);
        let b = after.bucket(name);
        &&& after.wf()
        &&& after.has_bucket(name)
        &&& Self::others_unchanged(before, after, name)
        &&& b.ttl_view() == if had {
            before.bucket(name).ttl_view()
        } else {
            ttl
        }
        &&& b.contents() == contents_after_insert(c0, k, v, step)
        &&& b.history() == if step is Write {
            h0.push(Change::Put(k, v))
        } else {
            h0
        }
        &&& match insert_report(step) {
            Some(o) => r == Ok::<StoreOutcome, StoreError>(o),
            None => r matches Err(StoreError::Retry),
        }
        &&& !c0.contains_key(k) ==> r == Ok::<StoreOutcome, StoreError>(
            StoreOutcome::Created(revision),
        ) && b.contents()[k] == (v, revision)
    }

    /// Stores `encoded` under `key` in the bucket called `bucket_name` (made
    /// first if missing, with `bucket_ttl`), expecting `revision`: the insert
    /// that publishing makes (see `publish_post`).
    pub fn publish_at(
        &mut self,
        bucket_name: &str,
        bucket_ttl: Option<u64>,
        key: &Key,
        encoded: &str,
        revision: u64,
    ) -> (r: Result<StoreOutcome, StoreError>)
        requires
            old(self).wf(),
        ensures
            Self::publish_post(
                *old(self),
                *final(self),
                bucket_name@,
                bucket_ttl,
                key@,
                encoded.spec_bytes(),
                revision,
                r,
            ),
    {
        self.get_or_create_bucket(bucket_name, bucket_ttl);
        let ghost mid = *self;
        let r = self.insert(bucket_name, key, encoded, revision);
        proof {
            assert(Self::others_unchanged(*old(self), mid, bucket_name@));
        }
        r
    }

    /// Publishes `obj`, whose serialised form is `encoded`: stores it under
    /// `key` at the revision it carries (see `publish_post`) and, on success,
    /// makes it carry the revision that the entry now has; on failure `obj`
    /// is left as it was.
    pub fn publish<T: Versioned>(
        &mut self,
        bucket_name: &str,
        bucket_ttl: Option<u64>,
        key: &Key,
        encoded: &str,
        obj: &mut T,
    ) -> (r: Result<StoreOutcome, StoreError>)
        requires
            old(self).wf(),
        ensures
            Self::publish_post(
                *old(self),
                *final(self),
                bucket_name@,
                bucket_ttl,
                key@,
                encoded.spec_bytes(),
                old(obj).revision_view(),
                r,
            ),
            match r {
                Ok(o) => final(obj).revision_view() == outcome_revision(o),
                Err(_) => *final(obj) == *old(obj),
            },
    {
        let r = self.publish_at(bucket_name, bucket_ttl, key, encoded, obj.revision());
        if let Ok(outcome) = r {
            obj.set_revision(outcome.revision());
        }
        r
    }

    /// Opens a stream over the bucket called `bucket_name`, made first if
    /// missing (with `bucket_ttl`): it yields a `Put` for every entry the
    /// bucket holds, then every later change, in order.
    pub fn watch(&mut self, bucket_name: &str, bucket_ttl: Option<u64>) -> (r: WatchStream)
        requires
            old(self).wf(),
        ensures
            final(self).wf(),
            final(self).has_bucket(bucket_name@),
            old(self).has_bucket(bucket_name@) ==> final(self).bucket(bucket_name@) == old(self).bucket(
                bucket_name@,
            ),
            !old(self).has_bucket(bucket_name@) ==> final(self).bucket(bucket_name@).history()
                == Seq::<Change>::empty() && final(self).bucket(bucket_name@).contents() == Map::<
                Seq<char>,
                (Seq<u8>, u64),
            >::empty(),
            Self::others_unchanged(*old(self), *final(self), bucket_name@),
            r.position() == final(self).bucket(bucket_name@).history().len(),
            exists|s: Seq<(Seq<char>, Seq<u8>)>|
                lists_exactly(s, values_of(final(self).bucket(bucket_name@).contents())) && r.pending()
                    == puts_of(s),
    {
        self.get_or_create_bucket(bucket_name, bucket_ttl);
        self.get_bucket(bucket_name).unwrap().watch()
    }
}

/// Publishing the same bytes under the same key at the same revision twice in
/// a row: when the first call creates the entry at that revision, the second
/// reports `Exists` at it and changes neither the entry nor the change log;
/// when the first reports `Exists`, so does the second.
pub proof fn lemma_publish_idempotent(
    m0: MemoryStore,
    m1: MemoryStore,
    m2: MemoryStore,
    name: Seq<char>,
    ttl: Option<u64>,
    k: Seq<char>,
    v: Seq<u8>,
    rev: u64,
    r1: Result<StoreOutcome, StoreError>,
    r2: Result<StoreOutcome, StoreError>,
)
    requires
        MemoryStore::publish_post(m0, m1, name, ttl, k, v, rev, r1),
        MemoryStore::publish_post(m1, m2, name, ttl, k, v, rev, r2),
    ensures
        r1 == Ok::<StoreOutcome, StoreError>(StoreOutcome::Created(rev)) ==> r2 == Ok::<
            StoreOutcome,
            StoreError,
        >(StoreOutcome::Exists(rev)) && m2.bucket(name).contents() == m1.bucket(name).contents()
            && m2.bucket(name).history() == m1.bucket(name).history(),
        r1 matches Ok(StoreOutcome::Exists(x)) ==> r2 == r1 && m2.bucket(name).contents() == m1.bucket(
            name,
        ).contents() && m2.bucket(name).history() == m1.bucket(name).history(),
{
}

/// The etcd store: its buckets live on the server; the connection is known
/// by the id of its primary lease.
#[derive(Debug, Clone, Copy, PartialEq, Eq, Structural)]
pub struct EtcdStore {
    pub lease_id: u64,
}

impl EtcdStore {
    pub fn new(lease_id: u64) -> (r: EtcdStore)
        ensures
            r.lease_id == lease_id,
    {
        EtcdStore { lease_id }
    }

    /// The identifier of the connection: its primary lease id.
    pub fn connection_id(&self) -> (r: u64)
        ensures
            r == self.lease_id,
    {
        self.lease_id
    }
}

/// The message-bus store: its buckets live on the bus; the connection is
/// known by the bus client's id.
#[derive(Debug, Clone, Copy, PartialEq, Eq, Structural)]
pub struct NATSStore {
    pub client_id: u64,
}

impl NATSStore {
    pub fn new(client_id: u64) -> (r: NATSStore)
        ensures
            r.client_id == client_id,
    {
        NATSStore { client_id }
    }

    /// The identifier of the connection: the bus client's id.
    pub fn connection_id(&self) -> (r: u64)
        ensures
            r == self.client_id,
    {
        self.client_id
    }
}

/// One of the stores a manager can stand in front of.
pub enum KeyValueStoreEnum {
    Memory(MemoryStore),
    Nats(NATSStore),
    Etcd(EtcdStore),
}

impl KeyValueStoreEnum {
    /// The identifier of the store's connection.
    pub open spec fn connection_view(&self) -> u64 {
        match self {
            KeyValueStoreEnum::Memory(x) => x.connection_view(),
            KeyValueStoreEnum::Nats(x) => x.client_id,
            KeyValueStoreEnum::Etcd(x) => x.lease_id,
        }
    }

    /// The identifier of the store's connection.
    pub fn connection_id(&self) -> (r: u64)
        ensures
            r == self.connection_view(),
    {
        match self {
            KeyValueStoreEnum::Memory(x) => x.connection_id(),
            KeyValueStoreEnum::Etcd(x) => x.connection_id(),
            KeyValueStoreEnum::Nats(x) => x.connection_id(),
        }
    }
}

/// The front of a key-value store, whichever kind it is.
pub struct KeyValueStoreManager(KeyValueStoreEnum);

impl KeyValueStoreManager {
    /// The store the manager stands in front of.
    pub closed spec fn store(&self) -> KeyValueStoreEnum {
        self.0
    }

    /// A manager in front of an empty in-memory store, for tests.
    pub fn memory() -> (r: KeyValueStoreManager)
        ensures
            r.store() is Memory,
            r.memory_wf(),
            r.store().connection_view() == 0,
            forall|n: Seq<char>| !r.memory_view()->0.has_bucket(n),
    {
        Self::new(KeyValueStoreEnum::Memory(MemoryStore::new()))
    }

    /// A manager in front of an etcd store.
    pub fn etcd(etcd_client: EtcdStore) -> (r: KeyValueStoreManager)
        ensures
            r.store() == KeyValueStoreEnum::Etcd(etcd_client),
    {
        Self::new(KeyValueStoreEnum::Etcd(etcd_client))
    }

    /// A manager in front of `s`.
    pub fn new(s: KeyValueStoreEnum) -> (r: KeyValueStoreManager)
        ensures
            r.store() == s,
    {
        KeyValueStoreManager(s)
    }

    /// Whether an in-memory store, if that is what stands behind, is well formed.
    pub closed spec fn memory_wf(&self) -> bool {
        match self.0 {
            KeyValueStoreEnum::Memory(m) => m.wf(),
            _ => true,
        }
    }

    /// The identifier of the store's connection.
    pub fn connection_id(&self) -> (r: u64)
        ensures
            r == self.store().connection_view(),
    {
        self.0.connection_id()
    }

    /// The in-memory store behind the manager, if that is its kind.
    pub fn as_memory(&self) -> (r: Option<&MemoryStore>)
        requires
            self.memory_wf(),
        ensures
            match r {
                Some(m) => self.store() == KeyValueStoreEnum::Memory(*m) && m.wf(),
                None => !(self.store() is Memory),
            },
    {
        match &self.0 {
            KeyValueStoreEnum::Memory(m) => Some(m),
            _ => None,
        }
    }
}

impl KeyValueStoreManager {
    /// The in-memory store behind the manager, if that is its kind.
    pub open spec fn memory_view(&self) -> Option<MemoryStore> {
        match self.store() {
            KeyValueStoreEnum::Memory(m) => Some(m),
            _ => None,
        }
    }

    /// Makes sure an in-memory store holds a bucket called `bucket_name` (see
    /// `MemoryStore::get_or_create_bucket`). A remote store's buckets live on
    /// its server and are reached through its connection: the manager leaves
    /// it as it is and says `false`.
    pub fn get_or_create_bucket(&mut self, bucket_name: &str, ttl: Option<u64>) -> (r: bool)
        requires
            old(self).memory_wf(),
        ensures
            final(self).memory_wf(),
            r == (old(self).store() is Memory),
            !r ==> *final(self) == *old(self),
            r ==> ({
                let m0 = old(self).memory_view()->0;
                let m1 = final(self).memory_view()->0;
                &&& final(self).store() is Memory
                &&& m1.has_bucket(bucket_name@)
                &&& m0.has_bucket(bucket_name@) ==> m1.bucket(bucket_name@) == m0.bucket(bucket_name@)
                &&& !m0.has_bucket(bucket_name@) ==> {
                    let b = m1.bucket(bucket_name@);
                    &&& b.ttl_view() == ttl
                    &&& b.contents() == Map::<Seq<char>, (Seq<u8>, u64)>::empty()
                    &&& b.history() == Seq::<Change>::empty()
                }
                &&& MemoryStore::others_unchanged(m0, m1, bucket_name@)
            }),
    {
        match &mut self.0 {
            KeyValueStoreEnum::Memory(m) => {
                m.get_or_create_bucket(bucket_name, ttl);
                true
            },
            _ => false,
        }
    }
    /// The bucket called `bucket_name` of an in-memory store, if it holds one.
    /// A remote store's buckets are reached through its connection: none here.
    pub fn get_bucket(&self, bucket_name: &str) -> (r: Option<&MemoryBucket>)
        requires
            self.memory_wf(),
        ensures
            match r {
                Some(b) => self.memory_view() is Some && self.memory_view()->0.has_bucket(bucket_name@)
                    && *b == self.memory_view()->0.bucket(bucket_name@) && b.wf(),
                None => self.memory_view() is None || !self.memory_view()->0.has_bucket(
                    bucket_name@,
                ),
            },
    {
        match &self.0 {
            KeyValueStoreEnum::Memory(m) => m.get_bucket(bucket_name),
            _ => None,
        }
    }

    /// The bytes under `key` in the bucket called `bucket_name` of an
    /// in-memory store (see `MemoryStore::load`); none for a remote store.
    pub fn load(&self, bucket_name: &str, key: &Key) -> (r: Option<Vec<u8>>)
        requires
            self.memory_wf(),
        ensures
            match r {
                Some(v) => self.memory_view() is Some && {
                    let m = self.memory_view()->0;
                    &&& m.has_bucket(bucket_name@)
                    &&& m.bucket(bucket_name@).contents().contains_key(key@)
                    &&& v@ == m.bucket(bucket_name@).contents()[key@].0
                },
                None => self.memory_view() is None || {
                    let m = self.memory_view()->0;
                    !m.has_bucket(bucket_name@) || !m.bucket(bucket_name@).contents().contains_key(
                        key@,
                    )
                },
            },
    {
        match &self.0 {
            KeyValueStoreEnum::Memory(m) => m.load(bucket_name, key),
            _ => None,
        }
    }

    /// Inserts into the bucket called `bucket_name` of an in-memory store
    /// (see `MemoryStore::insert`). A remote store's buckets are written
    /// through its connection: the manager leaves it as it is and says `None`.
    pub fn insert(&mut self, bucket_name: &str, key: &Key, value: &str, revision: u64) -> (r: Option<
        Result<StoreOutcome, StoreError>,
    >)
        requires
            old(self).memory_wf(),
        ensures
            final(self).memory_wf(),
            (r is Some) == (old(self).store() is Memory),
            r is None ==> *final(self) == *old(self),
            r matches Some(res) ==> final(self).store() is Memory && {
                let m0 = old(self).memory_view()->0;
                let m1 = final(self).memory_view()->0;
                &&& MemoryStore::others_unchanged(m0, m1, bucket_name@)
                &&& !m0.has_bucket(bucket_name@) ==> m1 == m0 && (match res {
                    Err(StoreError::MissingBucket(n)) => n@ == bucket_name@,
                    _ => false,
                })
                &&& m0.has_bucket(bucket_name@) ==> m1.has_bucket(bucket_name@) && insert_post(
                    m0.bucket(bucket_name@),
                    m1.bucket(bucket_name@),
                    key@,
                    value.spec_bytes(),
                    revision,
                    res,
                )
            },
    {
        match &mut self.0 {
            KeyValueStoreEnum::Memory(m) => Some(m.insert(bucket_name, key, value, revision)),
            _ => None,
        }
    }

    /// Removes `key` from the bucket called `bucket_name` of an in-memory
    /// store (see `MemoryStore::delete`). A remote store's buckets are written
    /// through its connection: the manager leaves it as it is and says `None`.
    pub fn delete(&mut self, bucket_name: &str, key: &Key) -> (r: Option<Result<(), StoreError>>)
        requires
            old(self).memory_wf(),
        ensures
            final(self).memory_wf(),
            (r is Some) == (old(self).store() is Memory),
            r is None ==> *final(self) == *old(self),
            r matches Some(res) ==> final(self).store() is Memory && {
                let m0 = old(self).memory_view()->0;
                let m1 = final(self).memory_view()->0;
                &&& MemoryStore::others_unchanged(m0, m1, bucket_name@)
                &&& !m0.has_bucket(bucket_name@) ==> m1 == m0 && (match res {
                    Err(StoreError::MissingBucket(n)) => n@ == bucket_name@,
                    _ => false,
                })
                &&& m0.has_bucket(bucket_name@) ==> res is Ok && m1.has_bucket(bucket_name@)
                    && delete_post(m0.bucket(bucket_name@), m1.bucket(bucket_name@), key@)
            },
    {
        match &mut self.0 {
            KeyValueStoreEnum::Memory(m) => Some(m.delete(bucket_name, key)),
            _ => None,
        }
    }

    /// Publishes `obj` into an in-memory store (see `MemoryStore::publish`).
    /// A remote store is published to through its connection: the manager
    /// leaves it and `obj` as they are and says `None`.
    pub fn publish<T: Versioned>(
        &mut self,
        bucket_name: &str,
        bucket_ttl: Option<u64>,
        key: &Key,
        encoded: &str,
        obj: &mut T,
    ) -> (r: Option<Result<StoreOutcome, StoreError>>)
        requires
            old(self).memory_wf(),
        ensures
            final(self).memory_wf(),
            (r is Some) == (old(self).store() is Memory),
            r is None ==> *final(self) == *old(self) && *final(obj) == *old(obj),
            r matches Some(res) ==> final(self).store() is Memory && MemoryStore::publish_post(
                old(self).memory_view()->0,
                final(self).memory_view()->0,
                bucket_name@,
                bucket_ttl,
                key@,
                encoded.spec_bytes(),
                old(obj).revision_view(),
                res,
            ) && match res {
                Ok(o) => final(obj).revision_view() == outcome_revision(o),
                Err(_) => *final(obj) == *old(obj),
            },
    {
        match &mut self.0 {
            KeyValueStoreEnum::Memory(m) => Some(m.publish(bucket_name, bucket_ttl, key, encoded, obj)),
            _ => None,
        }
    }

    /// Opens a stream over the bucket called `bucket_name` of an in-memory
    /// store (see `MemoryStore::watch`). A remote store is watched through its
    /// connection: the manager leaves it as it is and says `None`.
    pub fn watch(&mut self, bucket_name: &str, bucket_ttl: Option<u64>) -> (r: Option<WatchStream>)
        requires
            old(self).memory_wf(),
        ensures
            final(self).memory_wf(),
            (r is Some) == (old(self).store() is Memory),
            r is None ==> *final(self) == *old(self),
            r matches Some(stream) ==> final(self).store() is Memory && {
                let m0 = old(self).memory_view()->0;
                let m1 = final(self).memory_view()->0;
                let b = m1.bucket(bucket_name@);
                &&& m1.has_bucket(bucket_name@)
                &&& m0.has_bucket(bucket_name@) ==> b == m0.bucket(bucket_name@)
                &&& MemoryStore::others_unchanged(m0, m1, bucket_name@)
                &&& stream.position() == b.history().len()
                &&& exists|s: Seq<(Seq<char>, Seq<u8>)>|
                    lists_exactly(s, values_of(b.contents())) && stream.pending() == puts_of(s)
            },
    {
        match &mut self.0 {
            KeyValueStoreEnum::Memory(m) => Some(m.watch(bucket_name, bucket_ttl)),
            _ => None,
        }
    }
}

impl Default for KeyValueStoreManager {
    fn default() -> (r: KeyValueStoreManager)
        ensures
            r.store() is Memory,
            r.memory_wf(),
    {
        KeyValueStoreManager::memory()
    }
}

} // verus!
