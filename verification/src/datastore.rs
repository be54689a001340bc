//! The keyspace: entries with an optional expiry, and the shards that hold
//! them.

use vstd::prelude::*;
use vstd::pervasive::VecAdditionalExecFns;
use vstd::slice::slice_to_vec;
use vstd::string::StringExecFns;
use vstd::utf8::encode_utf8;
use crate::deserialize::integer_of;
use crate::errors::DataStoreError;
use crate::options::{
    fault_text,
    keyword_of,
    no_options,
    parse_options,
    parse_options_from,
    parse_set_options,
    Condition,
    Expiry,
    OptionFault,
    SetOptions,
};
use crate::resp_value::{RespType, RespValue};
use crate::text::str_eq;

verus! {

/// What is stored under a key.
#[derive(Debug)]
pub struct MapValue {
    pub value: String,
    pub expire_at: Option<i64>,
}

/// What a `MapValue` stands for: the text, and the unix time in
/// milliseconds at which it expires, if it does.
pub struct Entry {
    pub value: Seq<char>,
    pub expire_at: Option<i64>,
}

impl View for MapValue {
    type V = Entry;

    open spec fn view(&self) -> Entry {
        Entry { value: self.value@, expire_at: self.expire_at }
    }
}

/// An entry is live at `now` when it has no expiry or expires strictly
/// after `now`.
pub open spec fn live(e: Entry, now: int) -> bool {
    e.expire_at matches Some(t) ==> t > now
}

impl MapValue {
    /// An entry with the text `value` that expires at `expire_at`, if that
    /// is given.
    pub fn new(value: String, expire_at: Option<i64>) -> (res: Self)
        ensures
            res@ == (Entry { value: value@, expire_at }),
    {
        MapValue { value, expire_at }
    }

    /// The unix time in milliseconds at which the entry expires, if it
    /// does.
    pub fn expire_at(&self) -> (res: Option<i64>)
        ensures
            res == self@.expire_at,
    {
        self.expire_at
    }

    /// Whether the entry is live at `now`.
    pub fn is_live(&self, now: i64) -> (res: bool)
        ensures
            res == live(self@, now as int),
    {
        match self.expire_at {
            None => true,
            Some(t) => t > now,
        }
    }
}

/// A key with what is stored under it.
pub struct Slot {
    pub key: String,
    pub value: MapValue,
}

/// No key stands in two slots.
pub open spec fn distinct_keys(slots: Seq<Slot>) -> bool {
    forall|i: int, j: int|
        0 <= i < j < slots.len() ==> (#[trigger] slots[i]).key@ != (#[trigger] slots[j]).key@
}

/// Whether a slot holds `key`.
pub open spec fn holds_key(slots: Seq<Slot>, key: Seq<char>) -> bool {
    exists|i: int| 0 <= i < slots.len() && (#[trigger] slots[i]).key@ == key
}

/// A position at which `key` stands, where there is one.
pub open spec fn position_of(slots: Seq<Slot>, key: Seq<char>) -> int {
    choose|i: int| 0 <= i < slots.len() && (#[trigger] slots[i]).key@ == key
}

/// The map from each key to what is stored under it.
pub open spec fn as_map(slots: Seq<Slot>) -> Map<Seq<char>, Entry> {
    Map::new(
        |key: Seq<char>| holds_key(slots, key),
        |key: Seq<char>| slots[position_of(slots, key)].value@,
    )
}

/// The slot at position `i` is what the map holds under its key.
pub proof fn lemma_as_map_at(slots: Seq<Slot>, i: int)
    requires
        distinct_keys(slots),
        0 <= i < slots.len(),
    ensures
        as_map(slots).contains_key(slots[i].key@),
        as_map(slots)[slots[i].key@] == slots[i].value@,
        position_of(slots, slots[i].key@) == i,
{
    let key = slots[i].key@;
    assert(holds_key(slots, key));
    let p = position_of(slots, key);
    assert(slots[p].key@ == key);
    if p < i {
        assert(slots[p].key@ != slots[i].key@);
    } else if i < p {
        assert(slots[i].key@ != slots[p].key@);
    }
}

/// A slot with a new key, put at the end, is one more entry of the map.
pub proof fn lemma_as_map_push(slots: Seq<Slot>, slot: Slot)
    requires
        distinct_keys(slots),
        !holds_key(slots, slot.key@),
    ensures
        distinct_keys(slots.push(slot)),
        as_map(slots.push(slot)) == as_map(slots).insert(slot.key@, slot.value@),
{
    let after = slots.push(slot);
    assert forall|i: int, j: int| 0 <= i < j < after.len() implies (#[trigger] after[i]).key@ != (
    #[trigger] after[j]).key@ by {
        if j == slots.len() {
            assert(after[i] == slots[i]);
            if slots[i].key@ == slot.key@ {
                assert(holds_key(slots, slot.key@));
            }
        } else {
            assert(after[i] == slots[i] && after[j] == slots[j]);
        }
    }
    assert forall|key: Seq<char>| #[trigger]
        as_map(after).contains_key(key) == as_map(slots).insert(
            slot.key@,
            slot.value@,
        ).contains_key(key) by {
        if holds_key(after, key) {
            let p = position_of(after, key);
            if p < slots.len() {
                assert(slots[p].key@ == key);
            }
        }
        if holds_key(slots, key) {
            let p = position_of(slots, key);
            assert(after[p].key@ == key);
        }
        if key == slot.key@ {
            assert(after[slots.len() as int].key@ == key);
        }
    }
    assert forall|key: Seq<char>| #[trigger] as_map(after).contains_key(key) implies as_map(
        after,
    )[key] == as_map(slots).insert(slot.key@, slot.value@)[key] by {
        let p = position_of(after, key);
        lemma_as_map_at(after, p);
        if p < slots.len() {
            assert(after[p] == slots[p]);
            lemma_as_map_at(slots, p);
        }
    }
    assert(as_map(after) =~= as_map(slots).insert(slot.key@, slot.value@));
}

/// A new value in the slot at `i` is a new value under its key.
pub proof fn lemma_as_map_update(slots: Seq<Slot>, i: int, slot: Slot)
    requires
        distinct_keys(slots),
        0 <= i < slots.len(),
        slot.key@ == slots[i].key@,
    ensures
        distinct_keys(slots.update(i, slot)),
        as_map(slots.update(i, slot)) == as_map(slots).insert(slot.key@, slot.value@),
{
    let after = slots.update(i, slot);
    assert forall|a: int, b: int| 0 <= a < b < after.len() implies (#[trigger] after[a]).key@ != (
    #[trigger] after[b]).key@ by {
        assert(after[a].key@ == slots[a].key@);
        assert(after[b].key@ == slots[b].key@);
    }
    assert forall|key: Seq<char>| #[trigger]
        as_map(after).contains_key(key) == as_map(slots).insert(
            slot.key@,
            slot.value@,
        ).contains_key(key) by {
        if holds_key(after, key) {
            let p = position_of(after, key);
            assert(slots[p].key@ == key);
        }
        if holds_key(slots, key) {
            let p = position_of(slots, key);
            assert(after[p].key@ == key);
        }
        if key == slot.key@ {
            assert(after[i].key@ == key);
        }
    }
    assert forall|key: Seq<char>| #[trigger] as_map(after).contains_key(key) implies as_map(
        after,
    )[key] == as_map(slots).insert(slot.key@, slot.value@)[key] by {
        let p = position_of(after, key);
        lemma_as_map_at(after, p);
        if p != i {
            assert(after[p] == slots[p]);
            lemma_as_map_at(slots, p);
        }
    }
    assert(as_map(after) =~= as_map(slots).insert(slot.key@, slot.value@));
}

/// Taking the slot at `i` out takes its key out of the map.
pub proof fn lemma_as_map_remove(slots: Seq<Slot>, i: int)
    requires
        distinct_keys(slots),
        0 <= i < slots.len(),
    ensures
        distinct_keys(slots.remove(i)),
        as_map(slots.remove(i)) == as_map(slots).remove(slots[i].key@),
{
    let after = slots.remove(i);
    let gone = slots[i].key@;
    assert forall|a: int, b: int| 0 <= a < b < after.len() implies (#[trigger] after[a]).key@ != (
    #[trigger] after[b]).key@ by {
        let pa = if a < i {
            a
        } else {
            a + 1
        };
        let pb = if b < i {
            b
        } else {
            b + 1
        };
        assert(after[a] == slots[pa] && after[b] == slots[pb]);
    }
    assert forall|key: Seq<char>| #[trigger]
        as_map(after).contains_key(key) == as_map(slots).remove(gone).contains_key(key) by {
        if holds_key(after, key) {
            let p = position_of(after, key);
            let q = if p < i {
                p
            } else {
                p + 1
            };
            assert(slots[q] == after[p]);
            assert(slots[q].key@ == key);
            if key == gone {
                if q < i {
                    assert(slots[q].key@ != slots[i].key@);
                } else {
                    assert(slots[i].key@ != slots[q].key@);
                }
            }
        }
        if holds_key(slots, key) && key != gone {
            let p = position_of(slots, key);
            let q = if p < i {
                p
            } else {
                p - 1
            };
            assert(after[q] == slots[p]);
            assert(after[q].key@ == key);
        }
    }
    assert forall|key: Seq<char>| #[trigger] as_map(after).contains_key(key) implies as_map(
        after,
    )[key] == as_map(slots).remove(gone)[key] by {
        let p = position_of(after, key);
        lemma_as_map_at(after, p);
        let q = if p < i {
            p
        } else {
            p + 1
        };
        assert(slots[q] == after[p]);
        lemma_as_map_at(slots, q);
    }
    assert(as_map(after) =~= as_map(slots).remove(gone));
}

/// What a read of a key finds.
pub enum Lookup {
    Found(Seq<char>),
    Missing,
    Expired,
}

/// What a read of `key` at time `now` finds in `m`.
pub open spec fn lookup(m: Map<Seq<char>, Entry>, key: Seq<char>, now: int) -> Lookup {
    if !m.contains_key(key) {
        Lookup::Missing
    } else if live(m[key], now) {
        Lookup::Found(m[key].value)
    } else {
        Lookup::Expired
    }
}

/// The map after a read of `key` at time `now`: an expired entry leaves.
pub open spec fn after_lookup(m: Map<Seq<char>, Entry>, key: Seq<char>, now: int) -> Map<
    Seq<char>,
    Entry,
> {
    if lookup(m, key, now) is Expired {
        m.remove(key)
    } else {
        m
    }
}

/// The live entry under `key` at time `now`, if there is one.
pub open spec fn prior_entry(m: Map<Seq<char>, Entry>, key: Seq<char>, now: int) -> Option<Entry> {
    if m.contains_key(key) && live(m[key], now) {
        Some(m[key])
    } else {
        None
    }
}

/// Whether the condition of a SET keeps it from writing: NX where a live
/// entry is there, XX where none is.
pub open spec fn set_blocked(
    m: Map<Seq<char>, Entry>,
    key: Seq<char>,
    options: SetOptions,
    now: int,
) -> bool {
    let prior = prior_entry(m, key, now);
    (options.condition is IfAbsent && prior is Some) || (options.condition is IfPresent
        && prior is None)
}

/// The expiry that a SET gives to the entry it writes.
pub open spec fn new_expiry(
    m: Map<Seq<char>, Entry>,
    key: Seq<char>,
    options: SetOptions,
    now: int,
) -> Option<i64> {
    match options.expiry {
        Expiry::Never => None,
        Expiry::At(t) => Some(t),
        Expiry::Keep => match prior_entry(m, key, now) {
            Some(e) => e.expire_at,
            None => None,
        },
    }
}

/// The map after a SET at time `now`.
pub open spec fn after_set(
    m: Map<Seq<char>, Entry>,
    key: Seq<char>,
    value: Seq<char>,
    options: SetOptions,
    now: int,
) -> Map<Seq<char>, Entry> {
    if set_blocked(m, key, options, now) {
        m
    } else {
        m.insert(key, Entry { value, expire_at: new_expiry(m, key, options, now) })
    }
}

/// The reply to a SET at time `now`: the null bulk string where the
/// condition kept it from writing; with GET, the value that was there, or
/// the null bulk string where none was; else OK.
pub open spec fn set_reply(
    m: Map<Seq<char>, Entry>,
    key: Seq<char>,
    options: SetOptions,
    now: int,
) -> RespValue {
    if set_blocked(m, key, options, now) {
        RespValue::BulkString(None)
    } else if options.get {
        match prior_entry(m, key, now) {
            Some(e) => RespValue::BulkString(Some(encode_utf8(e.value))),
            None => RespValue::BulkString(None),
        }
    } else {
        RespValue::SimpleString("OK"@)
    }
}

/// One partition of the keyspace: a map from keys to entries.
pub struct Shard {
    slots: Vec<Slot>,
}

impl View for Shard {
    type V = Map<Seq<char>, Entry>;

    closed spec fn view(&self) -> Map<Seq<char>, Entry> {
        as_map(self.slots@)
    }
}

impl Shard {
    #[verifier::type_invariant]
    spec fn well_formed(self) -> bool {
        distinct_keys(self.slots@)
    }

    /// A shard without entries.
    pub fn new() -> (res: Self)
        ensures
            res@ == Map::<Seq<char>, Entry>::empty(),
    {
        let res = Shard { slots: Vec::new() };
        assert(res@ =~= Map::<Seq<char>, Entry>::empty());
        res
    }

    /// The position of `key` among the slots.
    fn find(&self, key: &str) -> (res: Option<usize>)
        ensures
            match res {
                Some(i) => i < self.slots@.len() && self.slots@[i as int].key@ == key@,
                None => !holds_key(self.slots@, key@),
            },
    {
        let mut i: usize = 0;
        while i < self.slots.len()
            invariant
                i <= self.slots@.len(),
                forall|k: int| 0 <= k < i ==> (#[trigger] self.slots@[k]).key@ != key@,
            decreases self.slots@.len() - i,
        {
            if str_eq(self.slots[i].key.as_str(), key) {
                return Some(i);
            }
            i = i + 1;
        }
        None
    }

    /// Reads `key` at time `now`. An entry that has expired is taken out.
    pub fn get(&mut self, key: &str, now: i64) -> (res: Result<String, DataStoreError>)
        ensures
            final(self)@ == after_lookup(old(self)@, key@, now as int),
            match lookup(old(self)@, key@, now as int) {
                Lookup::Found(text) => res matches Ok(s) && s@ == text,
                Lookup::Missing => res == Err::<String, DataStoreError>(
                    DataStoreError::KeyNotFound,
                ),
                Lookup::Expired => res == Err::<String, DataStoreError>(
                    DataStoreError::ExpiredKey,
                ),
            },
    {
        proof {
            use_type_invariant(&*self);
        }
        match self.find(key) {
            None => Err(DataStoreError::KeyNotFound),
            Some(i) => {
                proof {
                    lemma_as_map_at(self.slots@, i as int);
                }
                if self.slots[i].value.is_live(now) {
                    Ok(self.slots[i].value.value.clone())
                } else {
                    proof {
                        lemma_as_map_remove(self.slots@, i as int);
                    }
                    let mut slots: Vec<Slot> = Vec::new();
                    std::mem::swap(&mut self.slots, &mut slots);
                    slots.remove(i);
                    std::mem::swap(&mut self.slots, &mut slots);
                    Err(DataStoreError::ExpiredKey)
                }
            },
        }
    }

    /// Writes `value` under `key` at time `now`, as the options say.
    pub fn set(&mut self, key: String, value: String, options: &SetOptions, now: i64) -> (res:
        RespType)
        ensures
            final(self)@ == after_set(old(self)@, key@, value@, *options, now as int),
            res@ == set_reply(old(self)@, key@, *options, now as int),
    {
        proof {
            use_type_invariant(&*self);
        }
        let found = self.find(key.as_str());
        let mut prior_text: Option<Vec<u8>> = None;
        let mut prior_expiry: Option<i64> = None;
        let mut present = false;
        match found {
            None => {},
            Some(i) => {
                proof {
                    lemma_as_map_at(self.slots@, i as int);
                }
                if self.slots[i].value.is_live(now) {
                    present = true;
                    prior_expiry = self.slots[i].value.expire_at();
                    if options.get {
                        let text = self.slots[i].value.value.as_str();
                        prior_text = Some(slice_to_vec(text.as_bytes()));
                    }
                }
            },
        }
        let blocked = match options.condition {
            Condition::Always => false,
            Condition::IfAbsent => present,
            Condition::IfPresent => !present,
        };
        if blocked {
            return RespType::BulkString(None);
        }
        let expire_at = match options.expiry {
            Expiry::Never => None,
            Expiry::At(t) => Some(t),
            Expiry::Keep => prior_expiry,
        };
        let reply = if options.get {
            RespType::BulkString(prior_text)
        } else {
            RespType::SimpleString(String::from_str("OK"))
        };
        let slot = Slot { key, value: MapValue::new(value, expire_at) };
        let mut slots: Vec<Slot> = Vec::new();
        std::mem::swap(&mut self.slots, &mut slots);
        match found {
            None => {
                proof {
                    lemma_as_map_push(slots@, slot);
                }
                slots.push(slot);
            },
            Some(i) => {
                proof {
                    lemma_as_map_update(slots@, i as int, slot);
                }
                slots.set(i, slot);
            },
        }
        std::mem::swap(&mut self.slots, &mut slots);
        reply
    }

    /// Puts `value` under `key`, whatever was there.
    pub fn insert(&mut self, key: String, value: MapValue)
        ensures
            final(self)@ == old(self)@.insert(key@, value@),
    {
        proof {
            use_type_invariant(&*self);
        }
        let found = self.find(key.as_str());
        let slot = Slot { key, value };
        let mut slots: Vec<Slot> = Vec::new();
        std::mem::swap(&mut self.slots, &mut slots);
        match found {
            None => {
                proof {
                    lemma_as_map_push(slots@, slot);
                }
                slots.push(slot);
            },
            Some(i) => {
                proof {
                    lemma_as_map_update(slots@, i as int, slot);
                }
                slots.set(i, slot);
            },
        }
        std::mem::swap(&mut self.slots, &mut slots);
    }

    /// Takes every entry out.
    pub fn clear(&mut self)
        ensures
            final(self)@ == Map::<Seq<char>, Entry>::empty(),
    {
        let mut slots: Vec<Slot> = Vec::new();
        std::mem::swap(&mut self.slots, &mut slots);
        assert(self@ =~= Map::<Seq<char>, Entry>::empty());
    }

    /// The entries that are live at `now`, each once.
    pub fn snapshot(&self, now: i64) -> (res: Vec<Slot>)
        ensures
            distinct_keys(res@),
            as_map(res@) == live_part(self@, now as int),
    {
        proof {
            use_type_invariant(self);
        }
        let mut res: Vec<Slot> = Vec::new();
        let ghost mut origin: Seq<int> = Seq::empty();
        let mut i: usize = 0;
        while i < self.slots.len()
            invariant
                i <= self.slots@.len(),
                distinct_keys(self.slots@),
                origin.len() == res@.len(),
                forall|k: int|
                    0 <= k < res@.len() ==> 0 <= (#[trigger] origin[k]) < i && res@[k].key@
                        == self.slots@[origin[k]].key@ && res@[k].value@
                        == self.slots@[origin[k]].value@ && live(res@[k].value@, now as int),
                forall|a: int, b: int|
                    0 <= a < b < res@.len() ==> (#[trigger] origin[a]) < (#[trigger] origin[b]),
                forall|p: int|
                    0 <= p < i && live((#[trigger] self.slots@[p]).value@, now as int)
                        ==> holds_key(res@, self.slots@[p].key@),
            decreases self.slots@.len() - i,
        {
            if self.slots[i].value.is_live(now) {
                let slot = Slot {
                    key: self.slots[i].key.clone(),
                    value: MapValue::new(
                        self.slots[i].value.value.clone(),
                        self.slots[i].value.expire_at(),
                    ),
                };
                let ghost before = res@;
                res.push(slot);
                proof {
                    origin = origin.push(i as int);
                    assert forall|p: int|
                        0 <= p < i + 1 && live(
                            (#[trigger] self.slots@[p]).value@,
                            now as int,
                        ) implies holds_key(res@, self.slots@[p].key@) by {
                        if p < i {
                            let q = position_of(before, self.slots@[p].key@);
                            assert(res@[q] == before[q]);
                        } else {
                            assert(res@[before.len() as int].key@ == self.slots@[p].key@);
                        }
                    }
                }
            }
            i = i + 1;
        }
        proof {
            assert forall|a: int, b: int| 0 <= a < b < res@.len() implies (#[trigger] res@[a]).key@
                != (#[trigger] res@[b]).key@ by {
                assert(origin[a] < origin[b]);
                assert(self.slots@[origin[a]].key@ != self.slots@[origin[b]].key@);
            }
            let whole = as_map(self.slots@);
            assert forall|key: Seq<char>| #[trigger]
                as_map(res@).contains_key(key) == live_part(whole, now as int).contains_key(
                    key,
                ) by {
                if holds_key(res@, key) {
                    let q = position_of(res@, key);
                    lemma_as_map_at(self.slots@, origin[q]);
                }
                if whole.contains_key(key) && live(whole[key], now as int) {
                    let p = position_of(self.slots@, key);
                    lemma_as_map_at(self.slots@, p);
                }
            }
            assert forall|key: Seq<char>| #[trigger] as_map(res@).contains_key(key) implies as_map(
                res@,
            )[key] == live_part(whole, now as int)[key] by {
                let q = position_of(res@, key);
                lemma_as_map_at(res@, q);
                lemma_as_map_at(self.slots@, origin[q]);
            }
            assert(as_map(res@) =~= live_part(whole, now as int));
        }
        res
    }

    /// Puts each record under its key, in order.
    pub fn restore(&mut self, records: &Vec<Slot>)
        ensures
            final(self)@ == with_records(old(self)@, records@, records@.len() as int),
    {
        let mut i: usize = 0;
        while i < records.len()
            invariant
                i <= records@.len(),
                self@ == with_records(old(self)@, records@, i as int),
            decreases records@.len() - i,
        {
            let value = MapValue::new(records[i].value.value.clone(), records[i].value.expire_at());
            self.insert(records[i].key.clone(), value);
            i = i + 1;
        }
    }
}

/// Reads `key` at time `now` from the shard that holds it. An entry that
/// has expired is taken out.
pub fn get_value(shard: &mut Shard, key: &str, now: i64) -> (res: Result<String, DataStoreError>)
    ensures
        final(shard)@ == after_lookup(old(shard)@, key@, now as int),
        match lookup(old(shard)@, key@, now as int) {
            Lookup::Found(text) => res matches Ok(s) && s@ == text,
            Lookup::Missing => res == Err::<String, DataStoreError>(DataStoreError::KeyNotFound),
            Lookup::Expired => res == Err::<String, DataStoreError>(DataStoreError::ExpiredKey),
        },
{
    shard.get(key, now)
}

/// Runs one SET at time `now` on the shard that holds `key`: reads the
/// options, and where they are in order writes as they say.
pub fn set_value(
    shard: &mut Shard,
    key: String,
    value: String,
    options: &Vec<String>,
    now: i64,
) -> (res: Result<RespType, DataStoreError>)
    ensures
        match parse_options(options@, now as int) {
            Ok(o) => {
                &&& res matches Ok(reply)
                &&& reply@ == set_reply(old(shard)@, key@, o, now as int)
                &&& final(shard)@ == after_set(old(shard)@, key@, value@, o, now as int)
            },
            Err(fault) => {
                &&& res matches Err(DataStoreError::InvalidOptions(s))
                &&& s@ == fault_text(fault)
                &&& final(shard)@ == old(shard)@
            },
        },
{
    match parse_set_options(options, now) {
        Err(e) => Err(e),
        Ok(parsed) => Ok(shard.set(key, value, &parsed, now)),
    }
}

/// The entries of `m` that are live at `now`.
pub open spec fn live_part(m: Map<Seq<char>, Entry>, now: int) -> Map<Seq<char>, Entry> {
    Map::new(|key: Seq<char>| m.contains_key(key) && live(m[key], now), |key: Seq<char>| m[key])
}

/// `m` after the first `n` of `records` were put under their keys, in
/// order.
pub open spec fn with_records(m: Map<Seq<char>, Entry>, records: Seq<Slot>, n: int) -> Map<
    Seq<char>,
    Entry,
>
    decreases n,
{
    if n <= 0 {
        m
    } else {
        with_records(m, records, n - 1).insert(records[n - 1].key@, records[n - 1].value@)
    }
}

/// After a SET without options, a read of the key finds the value, at
/// whatever time it is made.
pub proof fn lemma_get_after_set(
    m: Map<Seq<char>, Entry>,
    key: Seq<char>,
    value: Seq<char>,
    now: int,
    later: int,
)
    ensures
        parse_options(Seq::<String>::empty(), now) == Ok::<SetOptions, OptionFault>(no_options()),
        lookup(after_set(m, key, value, no_options(), now), key, later) == Lookup::Found(value),
        set_reply(m, key, no_options(), now) == RespValue::SimpleString("OK"@),
{
}

/// After a SET with `EX n` that was accepted at time `now`, a read of the
/// key finds the value as long as fewer than `n` seconds have passed, and
/// finds the entry expired from then on.
pub proof fn lemma_expiry_window(
    m: Map<Seq<char>, Entry>,
    key: Seq<char>,
    value: Seq<char>,
    tokens: Seq<Seq<u8>>,
    now: int,
    later: int,
)
    requires
        tokens.len() == 2,
        keyword_of(tokens[0]) is Ex,
        parse_options_from(tokens, 0, no_options(), now) is Ok,
    ensures
        integer_of(tokens[1]) matches Some(n) && n >= 0 && ({
            let options = parse_options_from(tokens, 0, no_options(), now)->Ok_0;
            let after = after_set(m, key, value, options, now);
            &&& options.expiry == Expiry::At((now + n * 1000) as i64)
            &&& later < now + n * 1000 ==> lookup(after, key, later) == Lookup::Found(value)
            &&& later >= now + n * 1000 ==> lookup(after, key, later) is Expired
        }),
{
    reveal_with_fuel(parse_options_from, 3);
}

/// Records with distinct keys, put into an empty map, give the map of the
/// records.
pub proof fn lemma_with_records(records: Seq<Slot>, n: int)
    requires
        distinct_keys(records),
        0 <= n <= records.len(),
    ensures
        with_records(Map::empty(), records, n) == as_map(records.take(n)),
    decreases n,
{
    if n == 0 {
        assert(as_map(records.take(0)) =~= Map::<Seq<char>, Entry>::empty());
    } else {
        lemma_with_records(records, n - 1);
        let head = records.take(n - 1);
        assert(records.take(n) == head.push(records[n - 1]));
        assert(distinct_keys(head)) by {
            assert forall|i: int, j: int| 0 <= i < j < head.len() implies (#[trigger] head[i]).key@
                != (#[trigger] head[j]).key@ by {
                assert(head[i] == records[i] && head[j] == records[j]);
            }
        }
        if holds_key(head, records[n - 1].key@) {
            let p = position_of(head, records[n - 1].key@);
            assert(head[p] == records[p]);
            assert(records[p].key@ != records[n - 1].key@);
        }
        lemma_as_map_push(head, records[n - 1]);
    }
}

/// Restoring a snapshot into an empty shard brings back every entry that
/// was live when the snapshot was made, with its value and its expiry, and
/// nothing else.
pub proof fn lemma_snapshot_restores(m: Map<Seq<char>, Entry>, records: Seq<Slot>, now: int)
    requires
        distinct_keys(records),
        as_map(records) == live_part(m, now),
    ensures
        with_records(Map::empty(), records, records.len() as int) == live_part(m, now),
        forall|key: Seq<char>|
            #![trigger m.contains_key(key)]
            m.contains_key(key) && live(m[key], now) ==> with_records(
                Map::empty(),
                records,
                records.len() as int,
            ).contains_key(key) && with_records(Map::empty(), records, records.len() as int)[key]
                == m[key],
{
    lemma_with_records(records, records.len() as int);
    assert(records.take(records.len() as int) == records);
}

/// The offset basis of the 64-bit FNV-1a hash.
pub const FNV_OFFSET: u64 = 0xcbf29ce484222325u64;

/// The prime of the 64-bit FNV-1a hash.
pub const FNV_PRIME: u64 = 0x100000001b3u64;

/// The 64-bit FNV-1a hash of `bytes`.
pub open spec fn stable_hash(bytes: Seq<u8>) -> u64
    decreases bytes.len(),
{
    if bytes.len() == 0 {
        FNV_OFFSET
    } else {
        (stable_hash(bytes.drop_last()) ^ (bytes.last() as u64)).wrapping_mul(FNV_PRIME)
    }
}

/// The shard that holds `key` where there are `shards` of them.
pub open spec fn shard_of(key: Seq<char>, shards: int) -> int {
    (stable_hash(encode_utf8(key)) as int) % shards
}

/// Computes the hash of `bytes`.
pub fn hash_bytes(bytes: &[u8]) -> (res: u64)
    ensures
        res == stable_hash(bytes@),
{
    let mut hash: u64 = FNV_OFFSET;
    let mut i: usize = 0;
    while i < bytes.len()
        invariant
            i <= bytes@.len(),
            hash == stable_hash(bytes@.take(i as int)),
        decreases bytes@.len() - i,
    {
        proof {
            assert(bytes@.take(i + 1).drop_last() == bytes@.take(i as int));
        }
        hash = (hash ^ (bytes[i] as u64)).wrapping_mul(FNV_PRIME);
        i = i + 1;
    }
    proof {
        assert(bytes@.take(i as int) == bytes@);
    }
    hash
}

/// The index of the shard that holds `key`.
pub fn shard_index(key: &str, shards: usize) -> (res: usize)
    requires
        shards > 0,
    ensures
        res == shard_of(key@, shards as int),
        res < shards,
{
    let hash = hash_bytes(key.as_bytes());
    (hash % (shards as u64)) as usize
}

/// The shard of a key depends on the key and the number of shards alone,
/// and is one of the shards.
pub proof fn lemma_shard_stable(a: Seq<char>, b: Seq<char>, shards: int)
    requires
        shards > 0,
        a == b,
    ensures
        shard_of(a, shards) == shard_of(b, shards),
        0 <= shard_of(a, shards) < shards,
{
}

} // verus!
