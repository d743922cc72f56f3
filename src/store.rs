//! Values exchanged with a key-value bucket: what an insert reports, the
//! errors of the store, key/value pairs and change events, and the rule that
//! decides what a revision-stamped insert does.

use vstd::prelude::*;

use crate::text::{bytes_equal, copy_bytes, decimal, decimal_string};

verus! {

/// The parse error of `serde_json`, carried by `StoreError::JSONDecodeError`.
#[verifier::external_type_specification]
#[verifier::external_body]
pub struct ExJsonError(serde_json::Error);

/// What an insert did.
#[derive(Debug, Clone, Copy, PartialEq, Eq, Structural)]
pub enum StoreOutcome {
    /// The insert wrote the value; the entry now has this revision.
    /// Every new revision counts as a creation, an update included.
    Created(u64),
    /// Nothing was written: the entry already held the value at this revision.
    Exists(u64),
}

/// The revision that an entry has after an insert that reported `o`.
pub open spec fn outcome_revision(o: StoreOutcome) -> u64 {
    match o {
        StoreOutcome::Created(x) => x,
        StoreOutcome::Exists(x) => x,
    }
}

impl StoreOutcome {
    /// The revision that the entry has after the insert.
    pub fn revision(&self) -> (r: u64)
        ensures
            r == outcome_revision(*self),
    {
        match *self {
            StoreOutcome::Created(x) => x,
            StoreOutcome::Exists(x) => x,
        }
    }

    /// The outcome in words: `Created at 7` or `Exists at 7`.
    pub fn to_string(&self) -> (r: String)
        ensures
            r@ == match *self {
                StoreOutcome::Created(x) => seq!['C', 'r', 'e', 'a', 't', 'e', 'd', ' ', 'a', 't', ' ']
                    + decimal(x as nat),
                StoreOutcome::Exists(x) => seq!['E', 'x', 'i', 's', 't', 's', ' ', 'a', 't', ' ']
                    + decimal(x as nat),
            },
    {
        let mut out = match *self {
            StoreOutcome::Created(_) => String::from_str("Created at "),
            StoreOutcome::Exists(_) => String::from_str("Exists at "),
        };
        out.append(decimal_string(self.revision()).as_str());
        proof {
            reveal_strlit("Created at ");
            reveal_strlit("Exists at ");
        }
        out
    }
}

/// The errors of the key-value store.
#[derive(Debug)]
pub enum StoreError {
    /// No bucket of that name.
    MissingBucket(String),
    /// No key of that name.
    MissingKey(String),
    /// The backend reported a transport or protocol failure.
    ProviderError(String),
    /// The message bus reported a failure.
    NATSError(String),
    /// The etcd server reported a failure.
    EtcdError(String),
    /// A key-value failure, with the bucket's name.
    KeyValueError(String, String),
    /// The bytes at a key could not be decoded.
    JSONDecodeError(serde_json::Error),
    /// Compare-and-set lost a race: refresh the revision and call again.
    Retry,
}

/// A key and the bytes stored under it.
#[derive(Debug)]
pub struct KeyValue {
    key: String,
    value: Vec<u8>,
}

impl View for KeyValue {
    type V = (Seq<char>, Seq<u8>);

    closed spec fn view(&self) -> (Seq<char>, Seq<u8>) {
        (self.key@, self.value@)
    }
}

impl KeyValue {
    pub fn new(key: String, value: Vec<u8>) -> (r: KeyValue)
        ensures
            r@ == (key@, value@),
    {
        KeyValue { key, value }
    }

    pub fn key(&self) -> (r: &String)
        ensures
            r@ == self@.0,
    {
        &self.key
    }

    pub fn value(&self) -> (r: &Vec<u8>)
        ensures
            r@ == self@.1,
    {
        &self.value
    }
}

impl Clone for KeyValue {
    fn clone(&self) -> (r: KeyValue)
        ensures
            r@ == self@,
    {
        KeyValue { key: self.key.clone(), value: copy_bytes(&self.value) }
    }
}

impl PartialEq for KeyValue {
    fn eq(&self, other: &KeyValue) -> (r: bool) {
        self.key == other.key && bytes_equal(self.value.as_slice(), other.value.as_slice())
    }
}

impl vstd::std_specs::cmp::PartialEqSpecImpl for KeyValue {
    open spec fn obeys_eq_spec() -> bool {
        true
    }

    open spec fn eq_spec(&self, other: &KeyValue) -> bool {
        self@ == other@
    }
}

/// A change to a bucket, as watchers see it.
#[derive(Debug, PartialEq)]
pub enum WatchEvent {
    /// The key now holds the value.
    Put(KeyValue),
    /// The key was removed; the value is the one it held.
    Delete(KeyValue),
}

/// A change to a bucket, in the mathematical model.
pub enum Change {
    Put(Seq<char>, Seq<u8>),
    Delete(Seq<char>, Seq<u8>),
}

impl View for WatchEvent {
    type V = Change;

    open spec fn view(&self) -> Change {
        match self {
            WatchEvent::Put(kv) => Change::Put(kv@.0, kv@.1),
            WatchEvent::Delete(kv) => Change::Delete(kv@.0, kv@.1),
        }
    }
}

impl Clone for WatchEvent {
    fn clone(&self) -> (r: WatchEvent)
        ensures
            r@ == self@,
    {
        match self {
            WatchEvent::Put(kv) => WatchEvent::Put(kv.clone()),
            WatchEvent::Delete(kv) => WatchEvent::Delete(kv.clone()),
        }
    }
}

/// The key-to-value map after one change.
pub open spec fn apply_change(m: Map<Seq<char>, Seq<u8>>, c: Change) -> Map<Seq<char>, Seq<u8>> {
    match c {
        Change::Put(k, v) => m.insert(k, v),
        Change::Delete(k, _) => m.remove(k),
    }
}

/// The key-to-value map after a sequence of changes, applied in order.
pub open spec fn replay(m: Map<Seq<char>, Seq<u8>>, cs: Seq<Change>) -> Map<Seq<char>, Seq<u8>>
    decreases cs.len(),
{
    if cs.len() == 0 {
        m
    } else {
        apply_change(replay(m, cs.drop_last()), cs.last())
    }
}

/// Replaying two runs of changes one after the other is replaying their concatenation.
pub proof fn lemma_replay_concat(m: Map<Seq<char>, Seq<u8>>, a: Seq<Change>, b: Seq<Change>)
    ensures
        replay(m, a + b) == replay(replay(m, a), b),
    decreases b.len(),
{
    if b.len() == 0 {
        assert(a + b == a);
    } else {
        assert((a + b).drop_last() == a + b.drop_last());
        assert((a + b).last() == b.last());
        lemma_replay_concat(m, a, b.drop_last());
    }
}

/// What an insert of `value` at `revision` does to an entry.
#[derive(Debug, Clone, Copy, PartialEq, Eq, Structural)]
pub enum InsertStep {
    /// Write the value and give the entry this revision.
    Write(u64),
    /// Leave the entry as it is: it already holds the value at this revision.
    Keep(u64),
    /// The entry moved past the expected revision: the caller must retry.
    Stale,
}

/// The rule of a revision-stamped insert, given the entry's current value and
/// revision, if any:
/// - no entry: write at `revision`;
/// - a newer revision stored: stale;
/// - the same revision and the same value: keep;
/// - the same revision and another value: write at the next revision (stale if
///   there is none);
/// - an older revision stored: write at `revision`.
pub open spec fn insert_step(current: Option<(Seq<u8>, u64)>, value: Seq<u8>, revision: u64) -> InsertStep {
    match current {
        None => InsertStep::Write(revision),
        Some((stored, rev)) => {
            if revision < rev {
                InsertStep::Stale
            } else if revision == rev {
                if stored == value {
                    InsertStep::Keep(rev)
                } else if rev < u64::MAX {
                    InsertStep::Write((rev + 1) as u64)
                } else {
                    InsertStep::Stale
                }
            } else {
                InsertStep::Write(revision)
            }
        },
    }
}

/// Decides what an insert of `value` at `revision` does, given the entry's
/// current value and revision, if any (see `insert_step`).
pub fn decide_insert(current: Option<(&[u8], u64)>, value: &[u8], revision: u64) -> (r: InsertStep)
    ensures
        r == insert_step(
            match current {
                None => None,
                Some((v, rev)) => Some((v@, rev)),
            },
            value@,
            revision,
        ),
{
    match current {
        None => InsertStep::Write(revision),
        Some((stored, rev)) => {
            if revision < rev {
                InsertStep::Stale
            } else if revision == rev {
                if bytes_equal(stored, value) {
                    InsertStep::Keep(rev)
                } else if rev < u64::MAX {
                    InsertStep::Write(rev + 1)
                } else {
                    InsertStep::Stale
                }
            } else {
                InsertStep::Write(revision)
            }
        },
    }
}

} // verus!
