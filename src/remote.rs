//! The decisions of a bucket that lives on a revision-stamping server (etcd):
//! where a bucket's keys live in the server's flat key space, and how an
//! insert is carried out as a read followed by a guarded write. The task that
//! talks to the server makes the calls and hands the answers back.

use vstd::prelude::*;

use crate::key::Key;
use crate::store::{insert_step, InsertStep, StoreError, StoreOutcome};
use crate::text::bytes_equal;
use vstd::string::StrSliceExecFns;

verus! {

/// The prefix under which the keys of bucket `bucket` live: its name and `/`.
pub open spec fn bucket_prefix_spec(bucket: Seq<char>) -> Seq<char> {
    bucket + seq!['/']
}

/// The prefix under which the keys of bucket `bucket` live.
pub fn bucket_prefix(bucket: &str) -> (r: String)
    ensures
        r@ == bucket_prefix_spec(bucket@),
{
    let mut p = String::from_str(bucket);
    p.append("/");
    proof {
        reveal_strlit("/");
    }
    p
}

/// The server key of `key` in bucket `bucket`.
pub fn bucket_path(bucket: &str, key: &Key) -> (r: String)
    ensures
        r@ == bucket_prefix_spec(bucket@) + key@,
{
    let mut p = bucket_prefix(bucket);
    p.append(key.as_str());
    p
}

/// The bucket key that the server key `path` stands for, if `path` lies in
/// bucket `bucket`: what follows the bucket's prefix.
pub fn key_in_bucket(bucket: &str, path: &str) -> (r: Option<String>)
    ensures
        ({
            let p = bucket_prefix_spec(bucket@);
            match r {
                Some(k) => p.len() <= path@.len() && path@.subrange(0, p.len() as int) == p && k@
                    == path@.subrange(p.len() as int, path@.len() as int),
                None => !(p.len() <= path@.len() && path@.subrange(0, p.len() as int) == p),
            }
        }),
{
    let prefix = bucket_prefix(bucket);
    let n = prefix.as_str().unicode_len();
    let m = path.unicode_len();
    if m < n {
        return None;
    }
    let head = String::from_str(path.substring_char(0, n));
    if head == prefix {
        Some(String::from_str(path.substring_char(n, m)))
    } else {
        None
    }
}

/// What to do for an insert into a server-held bucket, once the key's
/// current value and revision have been read.
#[derive(Debug, Clone, Copy, PartialEq, Eq, Structural)]
pub enum RemoteInsert {
    /// Nothing to write: report this.
    Report(StoreOutcome),
    /// The revision is stale: report `Retry`.
    Retry,
    /// Write the value, on condition that the key is still at this revision
    /// (or, for `None`, still absent); the server then assigns the new revision.
    WriteIfAt(Option<u64>),
}

/// Plans an insert of `value` at `revision` into a server-held bucket, given
/// the key's current value and revision as read (see `insert_step`): an entry
/// that holds the value at that revision is reported as `Exists`, a stale
/// revision as `Retry`, and anything else is written, guarded by what was read.
pub fn plan_remote_insert(current: Option<(&[u8], u64)>, value: &[u8], revision: u64) -> (r: RemoteInsert)
    ensures
        ({
            let cur = match current {
                None => None,
                Some((v, rev)) => Some((v@, rev)),
            };
            match insert_step(cur, value@, revision) {
                InsertStep::Keep(rev) => r == RemoteInsert::Report(StoreOutcome::Exists(rev)),
                InsertStep::Stale => r == RemoteInsert::Retry,
                InsertStep::Write(_) => r == RemoteInsert::WriteIfAt(
                    match current {
                        None => None,
                        Some((_, rev)) => Some(rev),
                    },
                ),
            }
        }),
{
    match current {
        None => RemoteInsert::WriteIfAt(None),
        Some((stored, rev)) => {
            if revision < rev {
                RemoteInsert::Retry
            } else if revision == rev && bytes_equal(stored, value) {
                RemoteInsert::Report(StoreOutcome::Exists(rev))
            } else if revision == rev && rev == u64::MAX {
                RemoteInsert::Retry
            } else {
                RemoteInsert::WriteIfAt(Some(rev))
            }
        },
    }
}

/// The result of a guarded write: `Created` at the revision the server
/// assigned when the guard held, else `Retry`, for another writer moved the
/// key in between.
pub fn remote_insert_result(guard_held: bool, new_revision: u64) -> (r: Result<StoreOutcome, StoreError>)
    ensures
        guard_held ==> r == Ok::<StoreOutcome, StoreError>(StoreOutcome::Created(new_revision)),
        !guard_held ==> r matches Err(StoreError::Retry),
{
    if guard_held {
        Ok(StoreOutcome::Created(new_revision))
    } else {
        Err(StoreError::Retry)
    }
}

} // verus!
