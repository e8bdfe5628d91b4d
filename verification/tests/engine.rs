use kvs::engine::Engine;
use kvs::entry::Entry;
use kvs::KvsError;

fn in_memory_kvs() -> Engine {
    Engine::new(Vec::new()).unwrap()
}

// dump the log of an engine and open a new engine on the dumped bytes, as a
// restart on an existing file would
fn dump_and_restore(kvs: Engine) -> Engine {
    let mut buff = std::iter::repeat(0)
        .take(kvs.position() as usize)
        .collect::<Vec<u8>>();
    kvs.dump(&mut buff).unwrap();

    Engine::new(buff).unwrap()
}

fn sorted_keys(kvs: &Engine) -> Vec<String> {
    let mut v = Vec::new();
    let mut keys = kvs.keys();
    while let Some(key) = keys.next() {
        v.push(key.clone());
    }
    v.sort();
    v
}

#[test]
fn engine_put_and_get() {
    let entries = vec![
        Entry::new("1", vec![b'1']).unwrap(),
        Entry::new("2", vec![b'2', b'2']).unwrap(),
        Entry::new("3", vec![b'3', b'3', b'3']).unwrap(),
    ];

    let mut kvs = in_memory_kvs();

    entries.iter().for_each(|entry| {
        kvs.put(entry.key(), entry.value().clone()).unwrap();
    });

    assert_eq!(kvs.get("1").unwrap(), vec![b'1']);
    assert_eq!(kvs.get("2").unwrap(), vec![b'2', b'2']);
    assert_eq!(kvs.get("3").unwrap(), vec![b'3', b'3', b'3']);

    let kvs = dump_and_restore(kvs);
    assert_eq!(kvs.get("1").unwrap(), vec![b'1']);
    assert_eq!(kvs.get("2").unwrap(), vec![b'2', b'2']);
    assert_eq!(kvs.get("3").unwrap(), vec![b'3', b'3', b'3']);
}

#[test]
fn delete() {
    let mut kvs = in_memory_kvs();
    kvs.put("1", vec![b'1']).unwrap();

    assert_eq!(kvs.delete("1").unwrap(), Some(vec![b'1']));
    assert!(kvs.get("1").unwrap_err().is_not_found());
    assert_eq!(kvs.delete("1").unwrap(), None);

    // the deletion survives a restart
    let mut kvs = dump_and_restore(kvs);
    assert!(kvs.get("1").unwrap_err().is_not_found());
    assert_eq!(kvs.delete("1").unwrap(), None);
}

#[test]
fn keys() {
    let mut kvs = in_memory_kvs();

    kvs.put("1", vec![b'1']).unwrap();
    kvs.put("2", vec![b'2']).unwrap();

    let mut v = Vec::<String>::new();
    let mut keys = kvs.keys();
    while let Some(key) = keys.next() {
        v.push(key.clone());
    }
    v.sort();
    assert_eq!(v, vec!["1", "2"]);
}

#[test]
fn v2_put_and_get() {
    let entries = vec![
        Entry::new("1", vec![b'1']).unwrap(),
        Entry::new("2", vec![b'2']).unwrap(),
        Entry::new("3", vec![b'3']).unwrap(),
    ];

    let mut kvs = Engine::new(Vec::new()).unwrap();

    entries.iter().for_each(|entry| {
        kvs.put(entry.key(), entry.value().clone()).unwrap();
    });

    assert_eq!(kvs.get("1").unwrap(), vec![b'1']);
    assert_eq!(kvs.get("2").unwrap(), vec![b'2']);
    assert_eq!(kvs.get("3").unwrap(), vec![b'3']);

    let mut buff = std::iter::repeat(0)
        .take(kvs.position() as usize)
        .collect::<Vec<u8>>();
    kvs.dump(&mut buff).unwrap();

    let kvs = Engine::new(buff).unwrap();
    assert_eq!(kvs.get("1").unwrap(), vec![b'1']);
    assert_eq!(kvs.get("2").unwrap(), vec![b'2']);
    assert_eq!(kvs.get("3").unwrap(), vec![b'3']);
}

#[test]
fn an_empty_log_opens_at_position_zero() {
    let kvs = in_memory_kvs();
    assert_eq!(kvs.position(), 0);
    assert!(sorted_keys(&kvs).is_empty());
    assert_eq!(kvs.get("1").unwrap_err(), KvsError::NotFound);
    let mut none = Vec::new();
    kvs.dump(&mut none).unwrap();
    assert!(none.is_empty());
}

#[test]
fn put_then_get_returns_the_value() {
    let mut kvs = in_memory_kvs();
    for (key, value) in [("", vec![]), ("a", vec![0]), ("é", vec![1, 2, 3]), ("long key", vec![9; 1000])] {
        kvs.put(key, value.clone()).unwrap();
        assert_eq!(kvs.get(key).unwrap(), value);
    }
    assert_eq!(kvs.get("").unwrap(), Vec::<u8>::new());
    assert_eq!(kvs.get("a").unwrap(), vec![0]);
    assert_eq!(kvs.get("é").unwrap(), vec![1, 2, 3]);
    assert_eq!(sorted_keys(&kvs), vec!["", "a", "long key", "é"]);
}

#[test]
fn put_appends_one_record_and_moves_the_cursor_by_its_length() {
    let mut kvs = in_memory_kvs();
    kvs.put("key", b"value".to_vec()).unwrap();
    assert_eq!(kvs.position(), 19);
    kvs.put("1", vec![b'1']).unwrap();
    assert_eq!(kvs.position(), 19 + 13);
    let mut log = vec![0; 32];
    kvs.dump(&mut log).unwrap();
    assert_eq!(
        log,
        vec![
            58, 2, 221, 1, 1, 0, 3, 0, 0, 0, 5, 107, 101, 121, 118, 97, 108, 117, 101, 193, 68,
            102, 230, 1, 0, 1, 0, 0, 0, 1, 49, 49
        ]
    );
}

#[test]
fn a_second_put_overwrites_and_leaves_the_old_record_in_the_log() {
    let mut kvs = in_memory_kvs();
    kvs.put("k", vec![1]).unwrap();
    let after_first = kvs.position();
    kvs.put("k", vec![2, 2]).unwrap();
    assert_eq!(kvs.get("k").unwrap(), vec![2, 2]);
    assert_eq!(kvs.position(), after_first + 11 + 1 + 2);
    assert_eq!(sorted_keys(&kvs), vec!["k"]);
    let mut head = vec![0; after_first as usize];
    kvs.dump(&mut head).unwrap();
    assert_eq!(Entry::decode_with_check(&head).unwrap().value(), &vec![1]);
}

#[test]
fn delete_appends_a_tombstone_and_a_missing_key_appends_nothing() {
    let mut kvs = in_memory_kvs();
    kvs.put("k", vec![1, 2, 3]).unwrap();
    kvs.put("other", vec![4]).unwrap();
    let before = kvs.position();
    assert_eq!(kvs.delete("missing").unwrap(), None);
    assert_eq!(kvs.position(), before);
    assert_eq!(kvs.delete("k").unwrap(), Some(vec![1, 2, 3]));
    assert_eq!(kvs.position(), before + 11 + 1);
    assert_eq!(kvs.get("k").unwrap_err(), KvsError::NotFound);
    assert_eq!(kvs.get("other").unwrap(), vec![4]);
    assert_eq!(kvs.delete("k").unwrap(), None);
    assert_eq!(kvs.position(), before + 11 + 1);
    assert_eq!(sorted_keys(&kvs), vec!["other"]);

    let mut log = vec![0; kvs.position() as usize];
    kvs.dump(&mut log).unwrap();
    let tombstone = Entry::decode_with_check(&log[before as usize..]).unwrap();
    assert!(tombstone.is_deleted());
    assert_eq!(tombstone.key(), "k");
    assert!(tombstone.value().is_empty());

    kvs.put("k", vec![5]).unwrap();
    assert_eq!(kvs.get("k").unwrap(), vec![5]);
    assert_eq!(sorted_keys(&kvs), vec!["k", "other"]);
}

#[test]
fn a_restart_gives_the_same_answers() {
    let mut kvs = in_memory_kvs();
    kvs.put("a", vec![1]).unwrap();
    kvs.put("b", vec![2]).unwrap();
    kvs.put("a", vec![3]).unwrap();
    kvs.delete("b").unwrap();
    kvs.put("c", vec![]).unwrap();
    kvs.delete("missing").unwrap();
    let position = kvs.position();

    let mut again = dump_and_restore(kvs);
    assert_eq!(again.position(), position);
    assert_eq!(again.get("a").unwrap(), vec![3]);
    assert_eq!(again.get("b").unwrap_err(), KvsError::NotFound);
    assert_eq!(again.get("c").unwrap(), Vec::<u8>::new());
    assert_eq!(sorted_keys(&again), vec!["a", "c"]);
    assert_eq!(again.delete("b").unwrap(), None);

    again.put("b", vec![4]).unwrap();
    let third = dump_and_restore(again);
    assert_eq!(third.get("b").unwrap(), vec![4]);
    assert_eq!(sorted_keys(&third), vec!["a", "b", "c"]);
}

#[test]
fn a_flipped_bit_in_a_key_or_a_value_is_found_by_get() {
    let mut kvs = in_memory_kvs();
    kvs.put("first", vec![1, 2, 3]).unwrap();
    kvs.put("key", b"value".to_vec()).unwrap();
    let at = 11 + 5 + 3;
    let mut log = vec![0; kvs.position() as usize];
    kvs.dump(&mut log).unwrap();

    // the checksum itself and the value
    for i in (at..at + 4).chain(at + 14..at + 19) {
        for bit in 0..8 {
            let mut tampered = log.clone();
            tampered[i] ^= 1 << bit;
            let mut opened = Engine::new(tampered).unwrap();
            assert_eq!(opened.get("key").unwrap_err(), KvsError::CorruptData);
            assert!(opened.get("key").unwrap_err().is_data_corrupt());
            assert_eq!(opened.delete("key").unwrap_err(), KvsError::CorruptData);
            assert_eq!(opened.position(), log.len() as u64);
            assert_eq!(opened.get("first").unwrap(), vec![1, 2, 3]);
        }
    }
    // a bit of the key that keeps it UTF-8: the record now belongs to another key
    let mut tampered = log.clone();
    tampered[at + 11] ^= 1;
    let opened = Engine::new(tampered).unwrap();
    assert_eq!(opened.get("key").unwrap_err(), KvsError::NotFound);
    assert_eq!(opened.get("jey").unwrap_err(), KvsError::CorruptData);
}

#[test]
fn a_log_that_does_not_replay_is_refused() {
    let mut kvs = in_memory_kvs();
    kvs.put("key", b"value".to_vec()).unwrap();
    let mut log = vec![0; kvs.position() as usize];
    kvs.dump(&mut log).unwrap();

    let mut short = log.clone();
    short.pop();
    assert!(Engine::new(short).err().unwrap().is_eof());
    let mut state = log.clone();
    state[4] = 0;
    assert_eq!(Engine::new(state).err(), Some(KvsError::InvalidState(0)));
    let mut key = log.clone();
    key[11] = 0xC0;
    assert_eq!(Engine::new(key).err(), Some(KvsError::InvalidKey));
    let mut longer = log.clone();
    longer.extend_from_slice(&[0, 0, 0]);
    assert!(Engine::new(longer).err().unwrap().is_eof());
}

#[test]
fn a_key_that_is_too_long_is_refused_and_nothing_is_written() {
    let mut kvs = in_memory_kvs();
    kvs.put("k", vec![1]).unwrap();
    let before = kvs.position();
    let key = "a".repeat(65536);
    assert_eq!(kvs.put(&key, vec![1]).unwrap_err(), KvsError::MaxKeyBytes);
    assert_eq!(kvs.position(), before);
    assert_eq!(kvs.get(&key).unwrap_err(), KvsError::NotFound);
    assert_eq!(sorted_keys(&kvs), vec!["k"]);
    let longest = "a".repeat(65535);
    kvs.put(&longest, vec![1]).unwrap();
    assert_eq!(kvs.get(&longest).unwrap(), vec![1]);
}

#[test]
fn dump_fills_the_buffer_or_reports_the_end_of_the_stream() {
    let mut kvs = in_memory_kvs();
    kvs.put("1", vec![b'1']).unwrap();
    let mut head = vec![0xEE; 5];
    kvs.dump(&mut head).unwrap();
    assert_eq!(head, vec![193, 68, 102, 230, 1]);
    let mut too_long = vec![0xEE; 14];
    assert!(kvs.dump(&mut too_long).unwrap_err().is_eof());
    assert_eq!(too_long, vec![0xEE; 14]);
}

#[test]
fn keys_are_handed_out_once_each() {
    let mut kvs = in_memory_kvs();
    for i in 0..50 {
        kvs.put(&format!("key{}", i), vec![i as u8]).unwrap();
    }
    for i in (0..50).step_by(2) {
        assert_eq!(kvs.delete(&format!("key{}", i)).unwrap(), Some(vec![i as u8]));
    }
    let mut expected: Vec<String> = (0..50).filter(|i| i % 2 == 1).map(|i| format!("key{}", i)).collect();
    expected.sort();
    assert_eq!(sorted_keys(&kvs), expected);
    let mut keys = kvs.keys();
    let mut n = 0;
    while keys.next().is_some() {
        n += 1;
    }
    assert_eq!(n, 25);
    assert!(keys.next().is_none());
}

#[test]
fn cli_put_get_delete() {
    let mut kvs = in_memory_kvs();
    let text = |bytes: Vec<u8>| bincode::deserialize::<String>(&bytes).unwrap();

    kvs.put("key1", bincode::serialize("value1X").unwrap()).unwrap();
    assert_eq!(text(kvs.get("key1").unwrap()), "value1X".to_owned());

    kvs.put("key1", bincode::serialize("value1Y").unwrap()).unwrap();
    assert_eq!(text(kvs.get("key1").unwrap()), "value1Y".to_owned());

    assert!(kvs.get("not-exist").unwrap_err().is_not_found());

    assert_eq!(kvs.delete("key1").unwrap().map(text), Some("value1Y".to_owned()));
    assert_eq!(kvs.delete("key1").unwrap().map(text), None::<String>);
}

#[test]
fn log_is_what_dump_copies() {
    let mut kvs = in_memory_kvs();
    assert!(kvs.log().is_empty());
    kvs.put("1", vec![b'1']).unwrap();
    kvs.delete("1").unwrap();
    assert_eq!(
        kvs.log(),
        &vec![
            193, 68, 102, 230, 1, 0, 1, 0, 0, 0, 1, 49, 49, 189, 133, 11, 139, 2, 0, 1, 0, 0, 0,
            0, 49
        ]
    );
    let mut copy = vec![0; 25];
    kvs.dump(&mut copy).unwrap();
    assert_eq!(&copy, kvs.log());
    assert_eq!(kvs.position(), 25);
}
