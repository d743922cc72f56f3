use lease_runtime::key::Key;
use lease_runtime::manager::{EtcdStore, KeyValueStoreManager, MemoryStore, NATSStore, KeyValueStoreEnum, Versioned};
use lease_runtime::memory::MemoryBucket;
use lease_runtime::store::{decide_insert, InsertStep, KeyValue, StoreError, StoreOutcome, WatchEvent};

const BUCKET_NAME: &str = "v1/mdc";

fn put(key: &str, value: &str) -> WatchEvent {
    WatchEvent::Put(KeyValue::new(key.to_string(), value.as_bytes().to_vec()))
}

#[test]
fn test_memory_storage() {
    let mut s = MemoryStore::new();
    s.get_or_create_bucket(BUCKET_NAME, None);
    let res = s.insert(BUCKET_NAME, &Key::new("test1"), "value1", 0).unwrap();
    assert_eq!(res, StoreOutcome::Created(0));

    let mut expected = Vec::with_capacity(3);
    for i in 1..=3 {
        let item = WatchEvent::Put(KeyValue::new(
            format!("test{i}"),
            format!("value{i}").into_bytes(),
        ));
        expected.push(item);
    }

    let mut stream = s.watch(BUCKET_NAME, None);

    // Put in before starting the watch
    let v = s.get_bucket(BUCKET_NAME).unwrap().next_event(&mut stream).unwrap();
    assert_eq!(v, expected[0]);

    let res = s.insert(BUCKET_NAME, &Key::new("test2"), "value2", 0).unwrap();
    assert_eq!(res, StoreOutcome::Created(0));

    // Repeat a key and revision. Ignored.
    let res = s.insert(BUCKET_NAME, &Key::new("test2"), "value2", 0).unwrap();
    assert_eq!(res, StoreOutcome::Exists(0));

    // Increment revision
    let res = s.insert(BUCKET_NAME, &Key::new("test2"), "value2", 1).unwrap();
    assert_eq!(res, StoreOutcome::Created(1));

    let res = s.insert(BUCKET_NAME, &Key::new("test3"), "value3", 0).unwrap();
    assert_eq!(res, StoreOutcome::Created(0));

    // Put in after: every write is a Put, the new revision of test2 included
    let b = s.get_bucket(BUCKET_NAME).unwrap();
    let v = b.next_event(&mut stream).unwrap();
    assert_eq!(v, expected[1]);
    let v = b.next_event(&mut stream).unwrap();
    assert_eq!(v, expected[1]);
    let v = b.next_event(&mut stream).unwrap();
    assert_eq!(v, expected[2]);
    assert!(b.next_event(&mut stream).is_none());
}

#[test]
fn test_broadcast_stream() {
    let mut s = MemoryStore::new();
    s.get_or_create_bucket(BUCKET_NAME, None);

    let res = s.insert(BUCKET_NAME, &Key::new("test1"), "value1", 0).unwrap();
    assert_eq!(res, StoreOutcome::Created(0));

    let mut stream = s.watch(BUCKET_NAME, None);
    let (tx, _) = tokio::sync::broadcast::channel::<WatchEvent>(10);
    // The tap forwards what the stream holds before anyone subscribes.
    for e in s.get_bucket(BUCKET_NAME).unwrap().drain_events(&mut stream) {
        let _ = tx.send(e);
    }

    let mut rx1 = tx.subscribe();
    let mut rx2 = tx.subscribe();

    let item = WatchEvent::Put(KeyValue::new("test1".to_string(), b"GK".to_vec()));

    s.insert(BUCKET_NAME, &Key::new("test1"), "GK", 1).unwrap();
    for e in s.get_bucket(BUCKET_NAME).unwrap().drain_events(&mut stream) {
        let _ = tx.send(e);
    }

    assert_eq!(rx1.try_recv().unwrap(), item);
    assert_eq!(rx2.try_recv().unwrap(), item);
}

#[test]
fn insert_sequence_of_one_key() {
    let mut b = MemoryBucket::new("b", None);
    let mut stream = b.watch();
    let k1 = Key::new("k1");
    assert_eq!(b.insert(&k1, "v1", 0).unwrap(), StoreOutcome::Created(0));
    assert_eq!(b.insert(&k1, "v1", 0).unwrap(), StoreOutcome::Exists(0));
    assert_eq!(b.insert(&k1, "v1", 1).unwrap(), StoreOutcome::Created(1));
    let events = b.drain_events(&mut stream);
    assert_eq!(events, vec![put("k1", "v1"), put("k1", "v1")]);
}

#[test]
fn watcher_sees_writes_in_order() {
    let mut b = MemoryBucket::new("b", None);
    let mut stream = b.watch();
    b.insert(&Key::new("a"), "1", 0).unwrap();
    b.insert(&Key::new("b"), "2", 0).unwrap();
    b.insert(&Key::new("a"), "3", 1).unwrap();
    assert_eq!(b.next_event(&mut stream), Some(put("a", "1")));
    assert_eq!(b.next_event(&mut stream), Some(put("b", "2")));
    assert_eq!(b.next_event(&mut stream), Some(put("a", "3")));
    assert_eq!(b.next_event(&mut stream), None);
}

#[test]
fn snapshot_then_watch_covers_everything() {
    let mut b = MemoryBucket::new("b", None);
    b.insert(&Key::new("a"), "1", 0).unwrap();
    let mut stream = b.watch();
    let snapshot = b.entries();
    assert_eq!(snapshot, vec![KeyValue::new("a".to_string(), b"1".to_vec())]);
    b.insert(&Key::new("b"), "2", 0).unwrap();
    let events = b.drain_events(&mut stream);
    // The stream replays the snapshot, then the new write.
    assert_eq!(events, vec![put("a", "1"), put("b", "2")]);
    let mut all = b.entries();
    all.sort_by(|x, y| x.key().cmp(y.key()));
    assert_eq!(
        all,
        vec![
            KeyValue::new("a".to_string(), b"1".to_vec()),
            KeyValue::new("b".to_string(), b"2".to_vec()),
        ]
    );
}

#[test]
fn identical_inserts_create_then_exist() {
    let mut b = MemoryBucket::new("b", None);
    let k = Key::new("k");
    b.insert(&k, "old", 3).unwrap();
    assert_eq!(b.insert(&k, "new", 5).unwrap(), StoreOutcome::Created(5));
    assert_eq!(b.insert(&k, "new", 5).unwrap(), StoreOutcome::Exists(5));
}

#[test]
fn stale_revision_asks_for_retry() {
    let mut b = MemoryBucket::new("b", None);
    let k = Key::new("k");
    b.insert(&k, "v", 4).unwrap();
    assert!(matches!(b.insert(&k, "w", 3), Err(StoreError::Retry)));
    assert_eq!(b.get(&k), Some(b"v".to_vec()));
}

#[test]
fn new_value_at_current_revision_moves_to_next() {
    let mut b = MemoryBucket::new("b", None);
    let k = Key::new("k");
    b.insert(&k, "v", 4).unwrap();
    assert_eq!(b.insert(&k, "w", 4).unwrap(), StoreOutcome::Created(5));
    assert_eq!(b.get(&k), Some(b"w".to_vec()));
    assert!(matches!(b.insert(&k, "w", 4), Err(StoreError::Retry)));
}

#[test]
fn full_revision_space_is_stale() {
    assert_eq!(decide_insert(Some((b"a", u64::MAX)), b"b", u64::MAX), InsertStep::Stale);
    assert_eq!(decide_insert(Some((b"a", 7)), b"a", 7), InsertStep::Keep(7));
    assert_eq!(decide_insert(None, b"a", 7), InsertStep::Write(7));
    assert_eq!(decide_insert(Some((b"a", 2)), b"b", 9), InsertStep::Write(9));
}

#[test]
fn delete_logs_the_removed_value() {
    let mut b = MemoryBucket::new("b", Some(30));
    assert_eq!(b.ttl(), Some(30));
    let mut stream = b.watch();
    let k = Key::new("gone");
    b.insert(&k, "x", 0).unwrap();
    b.delete(&k);
    b.delete(&k);
    assert_eq!(b.get(&k), None);
    let events = b.drain_events(&mut stream);
    assert_eq!(
        events,
        vec![
            put("gone", "x"),
            WatchEvent::Delete(KeyValue::new("gone".to_string(), b"x".to_vec())),
        ]
    );
}

#[test]
fn missing_bucket_is_reported() {
    let mut s = MemoryStore::new();
    match s.insert("nope", &Key::new("k"), "v", 0) {
        Err(StoreError::MissingBucket(name)) => assert_eq!(name, "nope"),
        other => panic!("unexpected {other:?}"),
    }
    assert!(matches!(s.delete("nope", &Key::new("k")), Err(StoreError::MissingBucket(_))));
    assert_eq!(s.load("nope", &Key::new("k")), None);
    assert!(s.get_bucket("nope").is_none());
}

struct Card {
    revision: u64,
}

impl Versioned for Card {
    fn revision_view(&self) -> u64 {
        self.revision
    }

    fn revision(&self) -> u64 {
        self.revision
    }

    fn set_revision(&mut self, r: u64) {
        self.revision = r;
    }
}

#[test]
fn publish_writes_revision_back() {
    let mut s = MemoryStore::new();
    let key = Key::new("card");
    let mut card = Card { revision: 0 };
    let out = s.publish("cards", None, &key, "{\"a\":1}", &mut card).unwrap();
    assert_eq!(out, StoreOutcome::Created(0));
    let out = s.publish("cards", None, &key, "{\"a\":2}", &mut card).unwrap();
    assert_eq!(out, StoreOutcome::Created(1));
    assert_eq!(card.revision, 1);
    assert_eq!(s.load("cards", &key), Some(b"{\"a\":2}".to_vec()));
    let out = s.publish("cards", None, &key, "{\"a\":2}", &mut card).unwrap();
    assert_eq!(out, StoreOutcome::Exists(1));
}

#[test]
fn outcome_in_words() {
    assert_eq!(StoreOutcome::Created(7).to_string(), "Created at 7");
    assert_eq!(StoreOutcome::Exists(120).to_string(), "Exists at 120");
    assert_eq!(StoreOutcome::Exists(120).revision(), 120);
}

#[test]
fn connection_ids() {
    let m = KeyValueStoreManager::memory();
    assert_eq!(m.connection_id(), 0);
    assert!(m.as_memory().is_some());
    let e = KeyValueStoreManager::etcd(EtcdStore::new(42));
    assert_eq!(e.connection_id(), 42);
    assert!(e.as_memory().is_none());
    let n = KeyValueStoreManager::new(KeyValueStoreEnum::Nats(NATSStore::new(9)));
    assert_eq!(n.connection_id(), 9);
    let mut d = KeyValueStoreManager::default();
    assert!(d.get_bucket("x").is_none());
    assert!(d.get_or_create_bucket("x", None));
    assert!(d.as_memory().unwrap().get_bucket("x").is_some());
}

#[test]
fn publish_at_reports_stale_revision() {
    let mut s = MemoryStore::new();
    let key = Key::new("card");
    assert_eq!(s.publish_at("cards", Some(60), &key, "a", 3).unwrap(), StoreOutcome::Created(3));
    assert!(matches!(s.publish_at("cards", Some(60), &key, "b", 2), Err(StoreError::Retry)));
    assert_eq!(s.get_bucket("cards").unwrap().ttl(), Some(60));
}

#[test]
fn manager_serves_memory_and_defers_remote() {
    let mut m = KeyValueStoreManager::memory();
    let key = Key::new("card");
    let mut card = Card { revision: 0 };
    assert!(m.get_or_create_bucket("cards", None));
    let mut stream = m.watch("cards", None).unwrap();
    assert_eq!(m.publish("cards", None, &key, "x", &mut card).unwrap().unwrap(), StoreOutcome::Created(0));
    assert_eq!(m.load("cards", &key), Some(b"x".to_vec()));
    let events = m.get_bucket("cards").unwrap().drain_events(&mut stream);
    assert_eq!(events, vec![put("card", "x")]);

    let mut e = KeyValueStoreManager::etcd(EtcdStore::new(1));
    assert!(!e.get_or_create_bucket("cards", None));
    assert!(e.watch("cards", None).is_none());
    assert!(e.publish("cards", None, &key, "x", &mut card).is_none());
    assert_eq!(e.load("cards", &key), None);
    assert!(e.get_bucket("cards").is_none());
}

#[test]
fn manager_insert_and_delete() {
    let mut m = KeyValueStoreManager::memory();
    let k = Key::from("K1");
    assert!(matches!(m.insert("b", &k, "v", 0), Some(Err(StoreError::MissingBucket(_)))));
    m.get_or_create_bucket("b", None);
    let mut stream = m.watch("b", None).unwrap();
    assert_eq!(m.insert("b", &k, "v1", 0).unwrap().unwrap(), StoreOutcome::Created(0));
    assert_eq!(m.insert("b", &k, "v1", 0).unwrap().unwrap(), StoreOutcome::Exists(0));
    assert_eq!(m.insert("b", &k, "v1", 1).unwrap().unwrap(), StoreOutcome::Created(1));
    assert!(m.delete("b", &k).unwrap().is_ok());
    let events = m.get_bucket("b").unwrap().drain_events(&mut stream);
    assert_eq!(
        events,
        vec![
            put("k1", "v1"),
            put("k1", "v1"),
            WatchEvent::Delete(KeyValue::new("k1".to_string(), b"v1".to_vec())),
        ]
    );
    let mut e = KeyValueStoreManager::etcd(EtcdStore::new(1));
    assert!(e.insert("b", &k, "v", 0).is_none());
    assert!(e.delete("b", &k).is_none());
}

#[test]
fn publish_twice_creates_then_exists() {
    let mut m = KeyValueStoreManager::memory();
    let key = Key::new("k1");
    let mut a = Card { revision: 0 };
    let mut b = Card { revision: 0 };
    let mut c = Card { revision: 1 };
    assert_eq!(m.publish("b", None, &key, "j", &mut a).unwrap().unwrap(), StoreOutcome::Created(0));
    assert_eq!(m.publish("b", None, &key, "j", &mut b).unwrap().unwrap(), StoreOutcome::Exists(0));
    assert_eq!(m.publish("b", None, &key, "j", &mut c).unwrap().unwrap(), StoreOutcome::Created(1));
    assert_eq!((a.revision, b.revision, c.revision), (0, 0, 1));
    let mut stale = Card { revision: 0 };
    assert!(matches!(m.publish("b", None, &key, "j", &mut stale), Some(Err(StoreError::Retry))));
    assert_eq!(stale.revision, 0);
}
