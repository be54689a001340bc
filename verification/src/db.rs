//! The keyspace as connections share it: shards behind locks, and the
//! clock.

use vstd::prelude::*;
use std::sync::Arc;
use crate::constants::OP_TIMEOUT_MILLIS;
use crate::datastore::{
    as_map,
    distinct_keys,
    get_value,
    live_part,
    lookup,
    set_reply,
    shard_index,
    Entry,
    Lookup,
    MapValue,
    Shard,
    Slot,
};
use crate::errors::DataStoreError;
use crate::options::{
    fault_text,
    has_keyword_from,
    lemma_nx_xx_exclusive,
    parse_options,
    parse_set_options,
    token_bytes,
    Keyword,
};
use crate::resp_value::{RespType, RespValue};

verus! {

/// Declares `parking_lot::RawMutex`, the lock inside a `parking_lot::Mutex`.
/// Nothing is known of a value of it.
#[verifier::external_type_specification]
#[verifier::external_body]
pub struct ExRawMutex(parking_lot::RawMutex);

/// Declares `lock_api::Mutex`, of which `parking_lot::Mutex` is an alias.
/// Nothing is known of a value of it: what it guards is seen only through a
/// guard.
#[verifier::external_type_specification]
#[verifier::external_body]
#[verifier::reject_recursive_types(R)]
#[verifier::reject_recursive_types(T)]
pub struct ExMutex<R, T: ?Sized>(parking_lot::lock_api::Mutex<R, T>);

/// A held lock on a shard: a `parking_lot::MutexGuard`, whose own
/// declaration names a trait of its crate and so cannot be given. The lock
/// is given back when the value is dropped. Nothing is known of a value of
/// it.
#[verifier::external_body]
pub struct ShardGuard<'a> {
    guard: parking_lot::MutexGuard<'a, Shard>,
}

/// Calls `chrono::Utc::now` and reads the instant as unix milliseconds.
/// Nothing is claimed of the value. The call panics on a machine whose
/// clock stands before 1970.
#[verifier::external_body]
fn now_millis() -> i64 {
    chrono::Utc::now().timestamp_millis()
}

/// Calls `parking_lot::Mutex::new`: a lock, not held, that guards `shard`.
/// Nothing is claimed of the result.
#[verifier::external_body]
fn new_lock(shard: Shard) -> parking_lot::Mutex<Shard> {
    parking_lot::Mutex::new(shard)
}

/// Calls `parking_lot::Mutex::try_lock_for`: the guard, or `None` where
/// the lock was not had within `millis` milliseconds. Which of the two
/// comes back depends on the other holders of the lock: nothing is claimed
/// of it.
#[verifier::external_body]
fn lock_for<'a>(lock: &'a parking_lot::Mutex<Shard>, millis: u64) -> Option<ShardGuard<'a>> {
    match lock.try_lock_for(std::time::Duration::from_millis(millis)) {
        Some(guard) => Some(ShardGuard { guard }),
        None => None,
    }
}

/// Calls `MutexGuard::deref_mut`: the shard that the lock guards, to read
/// and to write. Nothing is claimed of what it holds, which other holders
/// of the lock may have written.
#[verifier::external_body]
fn locked<'a, 'b>(held: &'b mut ShardGuard<'a>) -> &'b mut Shard {
    &mut *held.guard
}

/// Calls `MutexGuard::deref`: the shard that the lock guards, to read.
/// Nothing is claimed of what it holds.
#[verifier::external_body]
fn peek<'a, 'b>(held: &'b ShardGuard<'a>) -> &'b Shard {
    &*held.guard
}

/// Calls `Arc::clone`: another pointer to the same shards, which is equal
/// to the first as pointers are that point to one value.
#[verifier::external_body]
fn share(data: &Arc<Vec<parking_lot::Mutex<Shard>>>) -> (res: Arc<Vec<parking_lot::Mutex<Shard>>>)
    ensures
        res == *data,
{
    Arc::clone(data)
}

/// What a read of `key` gives at time `now`: a `LockError` where the lock
/// was not had (`shard` is `None`), else what the shard holds for the key.
pub open spec fn read_gives(
    key: Seq<char>,
    now: int,
    shard: Option<Map<Seq<char>, Entry>>,
    res: Result<String, DataStoreError>,
) -> bool {
    match shard {
        None => res == Err::<String, DataStoreError>(DataStoreError::LockError),
        Some(m) => match lookup(m, key, now) {
            Lookup::Found(text) => res matches Ok(s) && s@ == text,
            Lookup::Missing => res == Err::<String, DataStoreError>(DataStoreError::KeyNotFound),
            Lookup::Expired => res == Err::<String, DataStoreError>(DataStoreError::ExpiredKey),
        },
    }
}

/// What a SET of `key` gives at time `now`: `InvalidOptions` where the
/// options are not in order; else a `LockError` where the lock was not had
/// (`shard` is `None`); else the reply that the shard owes.
pub open spec fn write_gives(
    key: Seq<char>,
    options: Seq<String>,
    now: int,
    shard: Option<Map<Seq<char>, Entry>>,
    res: Result<RespType, DataStoreError>,
) -> bool {
    match parse_options(options, now) {
        Err(fault) => res matches Err(DataStoreError::InvalidOptions(s)) && s@ == fault_text(
            fault,
        ),
        Ok(parsed) => match shard {
            None => res == Err::<RespType, DataStoreError>(DataStoreError::LockError),
            Some(m) => res matches Ok(reply) && reply@ == set_reply(m, key, parsed, now),
        },
    }
}

/// Whether `records` are the entries of `m` that are live at `now`, each
/// once.
pub open spec fn is_snapshot(records: Seq<Slot>, m: Map<Seq<char>, Entry>, now: int) -> bool {
    distinct_keys(records) && as_map(records) == live_part(m, now)
}

/// The records of each part, one part after another.
pub open spec fn joined(parts: Seq<Seq<Slot>>) -> Seq<Slot>
    decreases parts.len(),
{
    if parts.len() == 0 {
        Seq::empty()
    } else {
        joined(parts.drop_last()) + parts.last()
    }
}

/// Whether `records` are, shard after shard in the order of their
/// indices, the entries of `shards` that are live at `now`.
pub open spec fn saved(records: Seq<Slot>, shards: Seq<Map<Seq<char>, Entry>>, now: int) -> bool {
    exists|parts: Seq<Seq<Slot>>|
        {
            &&& parts.len() == shards.len()
            &&& forall|i: int|
                0 <= i < parts.len() ==> is_snapshot(#[trigger] parts[i], shards[i], now)
            &&& records == #[trigger] joined(parts)
        }
}

/// What a save of a keyspace of `count` shards gives at time `now`: a
/// `LockError` where the lock of a shard was not had (`shards` is `None`);
/// else the live entries of every shard, as the shards stood while all
/// their locks were held.
pub open spec fn save_gives(
    count: nat,
    now: int,
    shards: Option<Seq<Map<Seq<char>, Entry>>>,
    res: Result<Vec<Slot>, DataStoreError>,
) -> bool {
    match shards {
        None => res == Err::<Vec<Slot>, DataStoreError>(DataStoreError::LockError),
        Some(maps) => {
            &&& maps.len() == count
            &&& res matches Ok(records) && saved(records@, maps, now)
        },
    }
}

/// What a load of `records` gives where the first `written` of them were
/// written, each under the lock of its shard, before a lock was not had:
/// success where all of them were, else a `LockError`.
pub open spec fn load_gives(
    records: Seq<Slot>,
    written: int,
    res: Result<(), DataStoreError>,
) -> bool {
    &&& 0 <= written <= records.len()
    &&& if written == records.len() {
        res == Ok::<(), DataStoreError>(())
    } else {
        res == Err::<(), DataStoreError>(DataStoreError::LockError)
    }
}

/// One more part adds its records at the end.
pub proof fn lemma_joined_push(parts: Seq<Seq<Slot>>, part: Seq<Slot>)
    ensures
        joined(parts.push(part)) == joined(parts) + part,
{
    assert(parts.push(part).drop_last() =~= parts);
}

/// A handle on the keyspace. Handles that were cloned from one another
/// share the shards; each shard has a lock of its own.
pub struct Db {
    data: Arc<Vec<parking_lot::Mutex<Shard>>>,
}

impl Db {
    #[verifier::type_invariant]
    spec fn has_shards(self) -> bool {
        self.data@.len() > 0
    }

    /// The number of shards.
    pub closed spec fn shard_count(&self) -> nat {
        self.data@.len()
    }

    /// A keyspace of `num_shards` empty shards.
    pub fn new(num_shards: usize) -> (res: Self)
        requires
            num_shards > 0,
        ensures
            res.shard_count() == num_shards,
    {
        let mut shards: Vec<parking_lot::Mutex<Shard>> = Vec::new();
        let mut i: usize = 0;
        while i < num_shards
            invariant
                i <= num_shards,
                shards@.len() == i,
            decreases num_shards - i,
        {
            shards.push(new_lock(Shard::new()));
            i = i + 1;
        }
        Db { data: Arc::new(shards) }
    }

    /// Whether two handles are on the same shards.
    pub closed spec fn shares(&self, other: &Db) -> bool {
        self.data == other.data
    }

    /// Another handle on the same keyspace.
    pub fn clone(&self) -> (res: Self)
        ensures
            res.shares(self),
            res.shard_count() == self.shard_count(),
    {
        proof {
            use_type_invariant(self);
        }
        Db { data: share(&self.data) }
    }

    /// The number of shards.
    pub fn num_shards(&self) -> (res: usize)
        ensures
            res == self.shard_count(),
            res > 0,
    {
        proof {
            use_type_invariant(self);
        }
        self.data.len()
    }

    /// The lock of the shard at `index`.
    pub fn shard_lock(&self, index: usize) -> (res: Option<&parking_lot::Mutex<Shard>>)
        ensures
            res is Some <==> index < self.shard_count(),
    {
        if index < self.data.len() {
            Some(&self.data[index])
        } else {
            None
        }
    }

    /// Reads `key` now, under the lock of its shard. Fails with `LockError`
    /// where the lock is not had in time; else the result is that of
    /// `get_value` on the shard.
    pub fn get(&self, key: &str) -> (res: Result<String, DataStoreError>)
        ensures
            exists|now: int, shard: Option<Map<Seq<char>, Entry>>|
                #[trigger] read_gives(key@, now, shard, res),
            res matches Err(e) ==> e is LockError || e is KeyNotFound || e is ExpiredKey,
    {
        proof {
            use_type_invariant(self);
        }
        let index = shard_index(key, self.data.len());
        match lock_for(&self.data[index], OP_TIMEOUT_MILLIS) {
            None => {
                let res = Err(DataStoreError::LockError);
                assert(read_gives(key@, 0, None, res));
                res
            },
            Some(mut held) => {
                let now = now_millis();
                let shard = locked(&mut held);
                let ghost before = shard@;
                let res = get_value(shard, key, now);
                assert(read_gives(key@, now as int, Some(before), res));
                res
            },
        }
    }

    /// Runs one SET now. The options are read first: where they are not in
    /// order the result is `InvalidOptions` and no lock is taken. Else the
    /// write is made under the lock of the key's shard, and fails with
    /// `LockError` where the lock is not had in time.
    pub fn set(&self, key: &str, val: &str, ops: Vec<String>) -> (res: Result<
        RespType,
        DataStoreError,
    >)
        ensures
            exists|now: int, shard: Option<Map<Seq<char>, Entry>>|
                #[trigger] write_gives(key@, ops@, now, shard, res),
            res matches Err(e) ==> e is LockError || e is InvalidOptions,
            has_keyword_from(token_bytes(ops@), Keyword::Nx, 0) && has_keyword_from(
                token_bytes(ops@),
                Keyword::Xx,
                0,
            ) ==> res matches Err(DataStoreError::InvalidOptions(_)),
            res matches Ok(reply) ==> reply@ == RespValue::SimpleString("OK"@)
                || reply@ is BulkString,
    {
        proof {
            use_type_invariant(self);
        }
        let now = now_millis();
        proof {
            if has_keyword_from(token_bytes(ops@), Keyword::Nx, 0) && has_keyword_from(
                token_bytes(ops@),
                Keyword::Xx,
                0,
            ) {
                lemma_nx_xx_exclusive(ops@, now as int);
            }
        }
        let options = match parse_set_options(&ops, now) {
            Err(e) => {
                let res = Err(e);
                assert(write_gives(key@, ops@, now as int, None, res));
                return res;
            },
            Ok(options) => options,
        };
        let index = shard_index(key, self.data.len());
        match lock_for(&self.data[index], OP_TIMEOUT_MILLIS) {
            None => {
                let res = Err(DataStoreError::LockError);
                assert(write_gives(key@, ops@, now as int, None, res));
                res
            },
            Some(mut held) => {
                let shard = locked(&mut held);
                let ghost before = shard@;
                let res = Ok(shard.set(key.to_string(), val.to_string(), &options, now));
                assert(write_gives(key@, ops@, now as int, Some(before), res));
                res
            },
        }
    }

    /// The live entries of every shard, read while the locks of all shards
    /// are held; the locks are taken in ascending order of index. Fails
    /// with `LockError` where one of them is not had in time.
    pub fn save(&self) -> (res: Result<Vec<Slot>, DataStoreError>)
        ensures
            exists|now: int, shards: Option<Seq<Map<Seq<char>, Entry>>>|
                #[trigger] save_gives(self.shard_count(), now, shards, res),
            res matches Err(e) ==> e is LockError,
    {
        let mut guards: Vec<ShardGuard> = Vec::new();
        let mut i: usize = 0;
        while i < self.data.len()
            invariant
                i <= self.data@.len(),
                guards@.len() == i,
            decreases self.data@.len() - i,
        {
            match lock_for(&self.data[i], OP_TIMEOUT_MILLIS) {
                None => {
                    let res = Err(DataStoreError::LockError);
                    assert(save_gives(self.shard_count(), 0, None, res));
                    return res;
                },
                Some(held) => {
                    guards.push(held);
                },
            }
            i = i + 1;
        }
        let now = now_millis();
        let mut records: Vec<Slot> = Vec::new();
        let ghost mut shards: Seq<Map<Seq<char>, Entry>> = Seq::empty();
        let ghost mut parts: Seq<Seq<Slot>> = Seq::empty();
        let mut j: usize = 0;
        while j < guards.len()
            invariant
                j <= guards@.len(),
                shards.len() == j,
                parts.len() == j,
                forall|k: int|
                    0 <= k < j ==> is_snapshot(#[trigger] parts[k], shards[k], now as int),
                records@ == joined(parts),
            decreases guards@.len() - j,
        {
            let shard = peek(&guards[j]);
            let mut part = shard.snapshot(now);
            proof {
                lemma_joined_push(parts, part@);
                shards = shards.push(shard@);
                parts = parts.push(part@);
            }
            records.append(&mut part);
            j = j + 1;
        }
        let res = Ok(records);
        proof {
            assert(saved(records@, shards, now as int));
            assert(save_gives(self.shard_count(), now as int, Some(shards), res));
        }
        res
    }

    /// Puts each record into the shard of its key, under that shard's
    /// lock. Fails with `LockError` at the first lock that is not had in
    /// time; the records before it stay written.
    pub fn load(&self, records: Vec<Slot>) -> (res: Result<(), DataStoreError>)
        ensures
            exists|written: int| #[trigger] load_gives(records@, written, res),
            records@.len() == 0 ==> res is Ok,
            res matches Err(e) ==> e is LockError,
    {
        proof {
            use_type_invariant(self);
        }
        let mut i: usize = 0;
        while i < records.len()
            invariant
                i <= records@.len(),
                self.data@.len() > 0,
            decreases records@.len() - i,
        {
            let index = shard_index(records[i].key.as_str(), self.data.len());
            match lock_for(&self.data[index], OP_TIMEOUT_MILLIS) {
                None => {
                    let res = Err(DataStoreError::LockError);
                    assert(load_gives(records@, i as int, res));
                    return res;
                },
                Some(mut held) => {
                    let shard = locked(&mut held);
                    let value = MapValue::new(
                        records[i].value.value.clone(),
                        records[i].value.expire_at(),
                    );
                    shard.insert(records[i].key.clone(), value);
                },
            }
            i = i + 1;
        }
        let res = Ok(());
        assert(load_gives(records@, records@.len() as int, res));
        res
    }
}

} // verus!
