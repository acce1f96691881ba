use rust_scratch_pad::kv::{
    find_shard, get_correct_db, key_hash, new_sharded_db, shard_index, Reply, Shard,
};
use std::collections::hash_map::DefaultHasher;
use std::hash::{Hash, Hasher};

#[test]
fn a_new_store_has_the_shards_asked_for_all_empty() {
    let db: Vec<Shard<u32>> = new_sharded_db(4);
    assert_eq!(4, db.len());
    for shard in &db {
        assert_eq!(Reply::Null, shard.answer_get("foo"));
    }
    let none: Vec<Shard<u32>> = new_sharded_db(0);
    assert_eq!(0, none.len());
}

#[test]
fn what_is_set_can_be_got() {
    let mut shard = Shard::new();
    assert_eq!(Reply::Null, shard.answer_get("hello"));
    assert_eq!(Reply::Simple("OK"), shard.answer_set("hello", "world"));
    assert_eq!(Reply::Bulk(&"world"), shard.answer_get("hello"));
    assert_eq!(Reply::Null, shard.answer_get("Hello"));
    assert_eq!(Reply::Null, shard.answer_get(""));
}

#[test]
fn a_second_set_replaces_the_first() {
    let mut shard = Shard::new();
    assert_eq!(Reply::Simple("OK"), shard.answer_set("k", 1));
    assert_eq!(Reply::Simple("OK"), shard.answer_set("k", 2));
    assert_eq!(Reply::Simple("OK"), shard.answer_set("other", 3));
    assert_eq!(Reply::Bulk(&2), shard.answer_get("k"));
    assert_eq!(Reply::Bulk(&3), shard.answer_get("other"));
}

#[test]
fn the_hash_of_a_key_is_that_of_the_default_hasher() {
    for key in ["", "a", "hello", "gr\u{fc}n"] {
        let mut state = DefaultHasher::new();
        key.hash(&mut state);
        assert_eq!(state.finish(), key_hash(key));
    }
    assert_ne!(key_hash("a"), key_hash("b"));
}

#[test]
fn the_shard_index_is_the_hash_modulo_the_shards() {
    assert_eq!(0, shard_index(0, 4));
    assert_eq!(3, shard_index(7, 4));
    assert_eq!(2, shard_index(4_000_000_002, 1_000_000_000));
    assert_eq!(0, shard_index(12345, 1));
}

#[test]
fn a_key_always_finds_the_same_shard() {
    let db: Vec<usize> = (0..5).collect();
    for key in ["hello", "world", "", "foo", "bar", "baz"] {
        let expected = (key_hash(key) % 5) as usize;
        assert_eq!(expected, *get_correct_db(&db, key));
        assert_eq!(Some(&expected), find_shard(&db, key));
        assert_eq!(expected, *get_correct_db(&db, key));
    }
}

#[test]
fn a_store_without_shards_has_none_to_find() {
    let db: Vec<usize> = Vec::new();
    assert_eq!(None, find_shard(&db, "hello"));
}

#[test]
fn values_set_through_the_store_land_in_the_key_s_shard() {
    let mut db: Vec<Shard<u32>> = new_sharded_db(3);
    let keys = ["a", "b", "c", "d", "e", "f", "g"];
    for (n, key) in keys.iter().enumerate() {
        let index = shard_index(key_hash(key), db.len());
        assert_eq!(Reply::Simple("OK"), db[index].answer_set(key, n as u32));
    }
    for (n, key) in keys.iter().enumerate() {
        assert_eq!(Reply::Bulk(&(n as u32)), get_correct_db(&db, key).answer_get(key));
        for (i, shard) in db.iter().enumerate() {
            if i != shard_index(key_hash(key), db.len()) {
                assert_eq!(Reply::Null, shard.answer_get(key));
            }
        }
    }
}
