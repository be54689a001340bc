use redis_server::datastore::{
    get_value, hash_bytes, set_value, shard_index, MapValue, Shard, Slot,
};
use redis_server::options::{
    classify, expiry_time, parse_set_options, Condition, Expiry, Keyword, SetOptions,
};
use redis_server::db::Db;

fn now_millis() -> i64 {
    chrono::Utc::now().timestamp_millis()
}
use redis_server::errors::DataStoreError;
use redis_server::resp_value::RespType;

fn words(items: &[&str]) -> Vec<String> {
    items.iter().map(|s| s.to_string()).collect()
}

#[test]
fn test_set_with_expire() {}

#[test]
fn test_set_value() {
    let mut shard = Shard::new();
    let key = "key".to_string();
    let value = "value".to_string();

    let result = set_value(&mut shard, key.clone(), value.clone(), &vec![], now_millis());
    assert_eq!(result, Ok(RespType::SimpleString("OK".to_string())));
}

#[test]
fn test_get_value() {
    let mut shard = Shard::new();
    let key = "key".to_string();
    let value = "value".to_string();
    let _ = set_value(&mut shard, key.clone(), value.clone(), &vec![], now_millis());

    let result = get_value(&mut shard, &key, now_millis());
    assert_eq!(result, Ok(value));
}

#[test]
fn test_get_value_key_not_found() {
    let mut shard = Shard::new();
    let key = "key".to_string();

    let result = get_value(&mut shard, &key, now_millis());
    assert_eq!(result, Err(DataStoreError::KeyNotFound));
}

#[test]
fn test_set_value_lock_error() {
    let db = Db::new(1);
    let key = "key".to_string();
    let value = "value".to_string();

    let lock = db.shard_lock(0).unwrap().lock();
    let result = db.set(&key, &value, vec![]);
    assert_eq!(result, Err(DataStoreError::LockError));
    drop(lock);
    assert_eq!(db.get(&key), Err(DataStoreError::KeyNotFound));
}

#[test]
fn test_get_expired_key() {
    let mut shard = Shard::new();
    let key = "key".to_string();
    let value = "value".to_string();
    let now = 1_700_000_000_000;
    let result =
        set_value(&mut shard, key.clone(), value.clone(), &words(&["EX", "1"]), now);
    assert!(result.is_ok());
    let result = get_value(&mut shard, &key, now + 2000);
    assert_eq!(result, Err(DataStoreError::ExpiredKey));
    assert_eq!(get_value(&mut shard, &key, now + 2000), Err(DataStoreError::KeyNotFound));
}

#[test]
fn get_returns_what_set_wrote_at_any_time() {
    let mut shard = Shard::new();
    let reply = set_value(&mut shard, "k".to_string(), "v".to_string(), &vec![], 10);
    assert_eq!(reply, Ok(RespType::SimpleString("OK".to_string())));
    assert_eq!(get_value(&mut shard, "k", 0), Ok("v".to_string()));
    assert_eq!(get_value(&mut shard, "k", i64::MAX), Ok("v".to_string()));
}

#[test]
fn entry_with_ex_lives_until_its_instant() {
    let mut shard = Shard::new();
    let now = 5_000;
    set_value(&mut shard, "k".to_string(), "v".to_string(), &words(&["ex", "3"]), now).unwrap();
    assert_eq!(get_value(&mut shard, "k", now), Ok("v".to_string()));
    assert_eq!(get_value(&mut shard, "k", now + 2_999), Ok("v".to_string()));
    assert_eq!(get_value(&mut shard, "k", now + 3_000), Err(DataStoreError::ExpiredKey));
}

#[test]
fn expiry_options_compute_the_instant() {
    let now = 1_000;
    assert_eq!(expiry_time(&Keyword::Ex, b"2", now), Some(3_000));
    assert_eq!(expiry_time(&Keyword::Px, b"2", now), Some(1_002));
    assert_eq!(expiry_time(&Keyword::ExAt, b"2", now), Some(2_000));
    assert_eq!(expiry_time(&Keyword::PxAt, b"2", now), Some(2));
    assert_eq!(expiry_time(&Keyword::Ex, b"-1", now), None);
    assert_eq!(expiry_time(&Keyword::Px, b"x", now), None);
    assert_eq!(expiry_time(&Keyword::Ex, b"9223372036854775807", now), None);
    assert_eq!(expiry_time(&Keyword::ExAt, b"-3", now), Some(-3_000));
}

#[test]
fn options_are_read_without_regard_to_case() {
    assert_eq!(classify(b"ex"), Keyword::Ex);
    assert_eq!(classify(b"Px"), Keyword::Px);
    assert_eq!(classify(b"exAT"), Keyword::ExAt);
    assert_eq!(classify(b"PXAT"), Keyword::PxAt);
    assert_eq!(classify(b"nx"), Keyword::Nx);
    assert_eq!(classify(b"xX"), Keyword::Xx);
    assert_eq!(classify(b"keepttl"), Keyword::KeepTtl);
    assert_eq!(classify(b"get"), Keyword::Get);
    assert_eq!(classify(b"getx"), Keyword::Other);
    assert_eq!(classify(b""), Keyword::Other);
    assert_eq!(
        parse_set_options(&words(&["px", "5", "NX", "get"]), 100),
        Ok(SetOptions { expiry: Expiry::At(105), condition: Condition::IfAbsent, get: true })
    );
    assert_eq!(
        parse_set_options(&words(&["KEEPTTL", "xx"]), 100),
        Ok(SetOptions { expiry: Expiry::Keep, condition: Condition::IfPresent, get: false })
    );
}

#[test]
fn nx_with_xx_is_refused() {
    let expected = Err(DataStoreError::InvalidOptions("syntax error".to_string()));
    assert_eq!(parse_set_options(&words(&["NX", "XX"]), 0), expected);
    assert_eq!(parse_set_options(&words(&["xx", "GET", "nx"]), 0), expected);
    let refused = Err(DataStoreError::InvalidOptions("syntax error".to_string()));
    let mut shard = Shard::new();
    assert_eq!(
        set_value(&mut shard, "k".to_string(), "v".to_string(), &words(&["NX", "XX"]), 0),
        refused
    );
    assert_eq!(get_value(&mut shard, "k", 0), Err(DataStoreError::KeyNotFound));
    let db = Db::new(2);
    assert_eq!(db.set("k", "v", words(&["NX", "XX"])), refused);
}

#[test]
fn two_expiry_options_are_refused() {
    let expected = Err(DataStoreError::InvalidOptions("syntax error".to_string()));
    assert_eq!(parse_set_options(&words(&["EX", "1", "PX", "5"]), 0), expected);
    assert_eq!(parse_set_options(&words(&["EX", "1", "KEEPTTL"]), 0), expected);
    assert_eq!(parse_set_options(&words(&["KEEPTTL", "PXAT", "5"]), 0), expected);
    assert_eq!(parse_set_options(&words(&["EXAT", "1", "EXAT", "1"]), 0), expected);
}

#[test]
fn missing_or_invalid_expiry_time_is_refused() {
    assert_eq!(
        parse_set_options(&words(&["EX"]), 0),
        Err(DataStoreError::InvalidOptions("No expire time provided".to_string()))
    );
    assert_eq!(
        parse_set_options(&words(&["EX", "soon"]), 0),
        Err(DataStoreError::InvalidOptions("invalid expire time".to_string()))
    );
    assert_eq!(
        parse_set_options(&words(&["PX", "-5"]), 0),
        Err(DataStoreError::InvalidOptions("invalid expire time".to_string()))
    );
}

#[test]
fn nx_writes_only_where_no_live_entry_is() {
    let mut shard = Shard::new();
    let nx = words(&["NX"]);
    assert_eq!(
        set_value(&mut shard, "k".to_string(), "a".to_string(), &nx, 0),
        Ok(RespType::SimpleString("OK".to_string()))
    );
    assert_eq!(
        set_value(&mut shard, "k".to_string(), "b".to_string(), &nx, 0),
        Ok(RespType::BulkString(None))
    );
    assert_eq!(get_value(&mut shard, "k", 0), Ok("a".to_string()));
}

#[test]
fn nx_treats_an_expired_entry_as_absent() {
    let mut shard = Shard::new();
    set_value(&mut shard, "k".to_string(), "a".to_string(), &words(&["PXAT", "50"]), 0).unwrap();
    assert_eq!(
        set_value(&mut shard, "k".to_string(), "b".to_string(), &words(&["XX"]), 60),
        Ok(RespType::BulkString(None))
    );
    assert_eq!(
        set_value(&mut shard, "k".to_string(), "c".to_string(), &words(&["NX"]), 60),
        Ok(RespType::SimpleString("OK".to_string()))
    );
    assert_eq!(get_value(&mut shard, "k", 60), Ok("c".to_string()));
}

#[test]
fn xx_writes_only_where_a_live_entry_is() {
    let mut shard = Shard::new();
    let xx = words(&["XX"]);
    assert_eq!(
        set_value(&mut shard, "k".to_string(), "a".to_string(), &xx, 0),
        Ok(RespType::BulkString(None))
    );
    assert_eq!(get_value(&mut shard, "k", 0), Err(DataStoreError::KeyNotFound));
    set_value(&mut shard, "k".to_string(), "a".to_string(), &vec![], 0).unwrap();
    assert_eq!(
        set_value(&mut shard, "k".to_string(), "b".to_string(), &xx, 0),
        Ok(RespType::SimpleString("OK".to_string()))
    );
    assert_eq!(get_value(&mut shard, "k", 0), Ok("b".to_string()));
}

#[test]
fn get_option_returns_the_prior_value() {
    let mut shard = Shard::new();
    let get = words(&["GET"]);
    assert_eq!(
        set_value(&mut shard, "k".to_string(), "old".to_string(), &get, 0),
        Ok(RespType::BulkString(None))
    );
    assert_eq!(
        set_value(&mut shard, "k".to_string(), "new".to_string(), &get, 0),
        Ok(RespType::BulkString(Some(b"old".to_vec())))
    );
    assert_eq!(get_value(&mut shard, "k", 0), Ok("new".to_string()));
}

#[test]
fn keepttl_keeps_the_expiry_and_a_plain_set_clears_it() {
    let mut shard = Shard::new();
    set_value(&mut shard, "k".to_string(), "a".to_string(), &words(&["PXAT", "100"]), 0).unwrap();
    set_value(&mut shard, "k".to_string(), "b".to_string(), &words(&["KEEPTTL"]), 10).unwrap();
    assert_eq!(get_value(&mut shard, "k", 99), Ok("b".to_string()));
    let snapshot = shard.snapshot(0);
    assert_eq!(snapshot.len(), 1);
    assert_eq!(snapshot[0].value.expire_at(), Some(100));
    set_value(&mut shard, "k".to_string(), "c".to_string(), &vec![], 20).unwrap();
    assert_eq!(get_value(&mut shard, "k", 1_000), Ok("c".to_string()));
}

#[test]
fn snapshot_then_restore_brings_back_live_entries() {
    let mut shard = Shard::new();
    set_value(&mut shard, "plain".to_string(), "1".to_string(), &vec![], 0).unwrap();
    set_value(&mut shard, "later".to_string(), "2".to_string(), &words(&["PXAT", "500"]), 0)
        .unwrap();
    set_value(&mut shard, "gone".to_string(), "3".to_string(), &words(&["PXAT", "50"]), 0)
        .unwrap();
    let records = shard.snapshot(100);
    assert_eq!(records.len(), 2);
    shard.clear();
    assert_eq!(get_value(&mut shard, "plain", 100), Err(DataStoreError::KeyNotFound));
    shard.restore(&records);
    assert_eq!(get_value(&mut shard, "plain", 100), Ok("1".to_string()));
    assert_eq!(get_value(&mut shard, "later", 100), Ok("2".to_string()));
    assert_eq!(get_value(&mut shard, "gone", 100), Err(DataStoreError::KeyNotFound));
    let again = shard.snapshot(100);
    let later = again.iter().find(|slot| slot.key == "later").unwrap();
    assert_eq!(later.value.value, "2");
    assert_eq!(later.value.expire_at(), Some(500));
    let plain = again.iter().find(|slot| slot.key == "plain").unwrap();
    assert_eq!(plain.value.expire_at(), None);
}

#[test]
fn insert_replaces_what_was_there() {
    let mut shard = Shard::new();
    shard.insert("k".to_string(), MapValue::new("a".to_string(), None));
    shard.insert("k".to_string(), MapValue::new("b".to_string(), Some(9)));
    assert_eq!(shard.snapshot(0).len(), 1);
    assert_eq!(get_value(&mut shard, "k", 8), Ok("b".to_string()));
    assert!(MapValue::new("b".to_string(), Some(9)).is_live(8));
    assert!(!MapValue::new("b".to_string(), Some(9)).is_live(9));
}

#[test]
fn shard_of_a_key_is_stable_and_in_range() {
    assert_eq!(hash_bytes(b""), 0xcbf29ce484222325);
    assert_eq!(hash_bytes(b"a"), 0xaf63dc4c8601ec8c);
    assert_eq!(hash_bytes(b"foobar"), 0x85944171f73967e8);
    for shards in [1usize, 2, 3, 16, 1000] {
        for key in ["", "a", "foo", "a much longer key \u{e9}"] {
            let index = shard_index(key, shards);
            assert!(index < shards);
            assert_eq!(index, shard_index(key, shards));
            assert_eq!(index, (hash_bytes(key.as_bytes()) % shards as u64) as usize);
        }
    }
}

#[test]
fn db_handles_share_the_keyspace() {
    let db = Db::new(4);
    assert_eq!(db.num_shards(), 4);
    let other = db.clone();
    assert_eq!(db.set("foo", "bar", vec![]), Ok(RespType::SimpleString("OK".to_string())));
    assert_eq!(other.get("foo"), Ok("bar".to_string()));
    assert_eq!(other.get("nothing"), Err(DataStoreError::KeyNotFound));
    assert!(db.shard_lock(3).is_some());
    assert!(db.shard_lock(4).is_none());
}

#[test]
fn db_uses_the_clock_for_expiry() {
    let db = Db::new(4);
    let before = now_millis();
    assert!(before > 1_600_000_000_000);
    db.set("old", "x", words(&["PXAT", "1"])).unwrap();
    assert_eq!(db.get("old"), Err(DataStoreError::ExpiredKey));
    db.set("new", "y", words(&["EX", "1000"])).unwrap();
    assert_eq!(db.get("new"), Ok("y".to_string()));
}

#[test]
fn db_save_then_load_into_a_fresh_keyspace() {
    let db = Db::new(4);
    for i in 0..20 {
        db.set(&format!("key{}", i), &format!("value{}", i), vec![]).unwrap();
    }
    db.set("timed", "t", words(&["PXAT", "99999999999999"])).unwrap();
    db.set("expired", "e", words(&["PXAT", "1"])).unwrap();
    let records: Vec<Slot> = db.save().unwrap();
    assert_eq!(records.len(), 21);
    let fresh = Db::new(3);
    fresh.load(records).unwrap();
    for i in 0..20 {
        assert_eq!(fresh.get(&format!("key{}", i)), Ok(format!("value{}", i)));
    }
    assert_eq!(fresh.get("timed"), Ok("t".to_string()));
    assert_eq!(fresh.get("expired"), Err(DataStoreError::KeyNotFound));
    let timed = fresh.save().unwrap().into_iter().find(|slot| slot.key == "timed").unwrap();
    assert_eq!(timed.value.expire_at(), Some(99999999999999));
}

#[test]
fn db_save_fails_while_a_shard_is_locked() {
    let db = Db::new(2);
    let lock = db.shard_lock(1).unwrap().lock();
    assert_eq!(db.save().err(), Some(DataStoreError::LockError));
    drop(lock);
    assert!(db.save().is_ok());
}

#[test]
fn db_load_of_no_records_takes_no_lock() {
    let db = Db::new(2);
    let first = db.shard_lock(0).unwrap().lock();
    let second = db.shard_lock(1).unwrap().lock();
    assert_eq!(db.load(vec![]), Ok(()));
    assert_eq!(
        db.load(vec![Slot { key: "k".to_string(), value: MapValue::new("v".to_string(), None) }]),
        Err(DataStoreError::LockError)
    );
    drop(first);
    drop(second);
    assert_eq!(db.get("k"), Err(DataStoreError::KeyNotFound));
}

#[test]
fn db_save_gives_the_records_shard_after_shard() {
    let db = Db::new(4);
    for i in 0..40 {
        db.set(&format!("key{}", i), "v", vec![]).unwrap();
    }
    let records = db.save().unwrap();
    assert_eq!(records.len(), 40);
    let shards: Vec<usize> = records.iter().map(|slot| shard_index(&slot.key, 4)).collect();
    assert!(shards.windows(2).all(|pair| pair[0] <= pair[1]));
    let mut keys: Vec<&str> = records.iter().map(|slot| slot.key.as_str()).collect();
    keys.sort();
    keys.dedup();
    assert_eq!(keys.len(), 40);
}
