//! The keyspace: expiry, retrieval, lazy eviction, the sweep, and
//! the actor step.
use rust_redis::data_management::datastore::{DataStore, DataStoreEntry};
use rust_redis::data_management::hash_table_store::HashTableDataStore;
use rust_redis::data_management::message::{DataChannelMessage, GetMessage, SetMessage};
use rust_redis::data_management::worker::DataManager;
use rust_redis::resp::Resp;

#[test]
fn should_be_expired() {
    let entry_with_expiry = DataStoreEntry::new(vec![], Some(1), 0);
    assert!(entry_with_expiry.expired(2))
}

#[test]
fn should_no_be_expired() {
    let entry_with_expiry = DataStoreEntry::new(vec![], Some(100000), 0);
    assert!(!entry_with_expiry.expired(0))
}

#[test]
fn should_delete_expired_data() {
    let entry_with_expiry = DataStoreEntry::new(vec![], Some(1), 0);
    let mut store = HashTableDataStore::from_entries(vec![(b"hello".to_vec(), entry_with_expiry)]);
    assert!(store.get(b"hello".to_vec(), 2).is_none())
}

#[test]
fn hash_table_store_should_retrieve_data() {
    let entry_with_expiry = DataStoreEntry::new(vec![], Some(10000), 0);
    let mut store = HashTableDataStore::from_entries(vec![(b"hello".to_vec(), entry_with_expiry)]);
    assert!(store.get(b"hello".to_vec(), 0).is_some())
}

#[test]
fn should_clean_expired() {
    let entry_expired = DataStoreEntry::new(vec![], Some(1), 0);
    let entry_not_expired = DataStoreEntry::new(b"world".to_vec(), Some(10000), 0);
    let mut store = HashTableDataStore::from_entries(vec![
        (b"hello".to_vec(), entry_not_expired),
        (b"expired".to_vec(), entry_expired),
    ]);
    store.clean(2);
    assert_eq!(store.get(b"hello".to_vec(), 2).unwrap(), b"world".to_vec());
    assert!(store.get(b"expired".to_vec(), 2).is_none())
}

#[test]
fn should_insert_key_value() {
    let mut manager = DataManager::new(HashTableDataStore::default(), None);

    let key = Resp::bulk_string_from_str("hello").serialize().unwrap();
    let value = Resp::bulk_string_from_str("world").serialize().unwrap();

    let message = SetMessage::new(key, value, None);
    let reply = manager.process(DataChannelMessage::SetValue(message), 0);
    let expect = Resp::simple_string_from_str("OK");
    assert_eq!(reply, expect)
}

#[test]
fn worker_should_retrieve_data() {
    let key = Resp::bulk_string_from_str("hello").serialize().unwrap();
    let value = Resp::bulk_string_from_str("world").serialize().unwrap();
    let entry = DataStoreEntry::new(value.clone(), None, 0);
    let store = HashTableDataStore::from_entries(vec![(key.clone(), entry)]);

    let mut manager = DataManager::new(store, None);
    let reply = manager.process(DataChannelMessage::GetValue(GetMessage::new(key)), 0);
    assert_eq!(reply, Resp::deserialize(&value).unwrap())
}

#[test]
fn should_reply_null_bulk_string_if_no_data() {
    const EXPECT: &str = "$-1\r\n";
    let key = Resp::bulk_string_from_str("hello").serialize().unwrap();
    let mut manager = DataManager::new(HashTableDataStore::default(), None);
    let reply = manager.process(DataChannelMessage::GetValue(GetMessage::new(key)), 0);
    assert_eq!(reply.serialize().unwrap(), EXPECT.as_bytes())
}

#[test]
fn should_reply_null_bulk_string_if_expired_data() {
    const EXPECT: &str = "$-1\r\n";
    let key = Resp::bulk_string_from_str("hello").serialize().unwrap();
    let value = Resp::bulk_string_from_str("world").serialize().unwrap();
    let entry = DataStoreEntry::new(value, Some(1), 0);
    let data_store = HashTableDataStore::from_entries(vec![(key.clone(), entry)]);

    let mut manager = DataManager::new(data_store, None);
    let reply = manager.process(DataChannelMessage::GetValue(GetMessage::new(key)), 2);
    assert_eq!(reply.serialize().unwrap(), EXPECT.as_bytes())
}

#[test]
fn set_message_expiry_reaches_the_store() {
    let mut manager = DataManager::new(HashTableDataStore::default(), None);
    let key = Resp::bulk_string_from_str("k").serialize().unwrap();
    let value = Resp::bulk_string_from_str("v").serialize().unwrap();
    let message = SetMessage::new(key.clone(), value, Some(5));
    manager.process(DataChannelMessage::SetValue(message), 100);

    let hit = manager.process(DataChannelMessage::GetValue(GetMessage::new(key.clone())), 104);
    assert_eq!(hit, Resp::bulk_string_from_str("v"));
    let miss = manager.process(DataChannelMessage::GetValue(GetMessage::new(key)), 105);
    assert_eq!(miss, Resp::NullBulkString);
}

#[test]
fn lifetime_past_the_clock_never_expires_within_it() {
    let entry = DataStoreEntry::new(b"v".to_vec(), Some(u64::MAX), 10);
    assert!(!entry.expired(u64::MAX - 1));
}
