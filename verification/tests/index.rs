use kvs::entry::Entry;
use kvs::index::KeyIndex;
use kvs::KvsError;

fn log_of(entries: &[Entry]) -> Vec<u8> {
    let mut log = Vec::new();
    for entry in entries {
        entry.encode(&mut log);
    }
    log
}

#[test]
fn an_empty_log_replays_to_an_empty_index() {
    let index = KeyIndex::construct_from(&[]).unwrap();
    assert_eq!(index.len(), 0);
    assert_eq!(index.get("1"), None);
    assert!(!index.contains_key("1"));
}

#[test]
fn the_last_record_of_a_key_wins() {
    let first = Entry::new("a", vec![1]).unwrap();
    let other = Entry::new("b", vec![2, 2]).unwrap();
    let second = Entry::new("a", vec![3, 3, 3]).unwrap();
    let log = log_of(&[first.clone(), other.clone(), second]);
    let index = KeyIndex::construct_from(&log).unwrap();
    assert_eq!(index.len(), 2);
    assert_eq!(index.get("a"), Some(first.len() + other.len()));
    assert_eq!(index.get("b"), Some(first.len()));
    assert!(index.contains_key("a"));
}

#[test]
fn a_tombstone_removes_its_key_and_a_later_put_brings_it_back() {
    let a = Entry::new("a", vec![1]).unwrap();
    let b = Entry::new("b", vec![2]).unwrap();
    let gone = a.mark_delete().unwrap();
    let log = log_of(&[a.clone(), b.clone(), gone.clone()]);
    let index = KeyIndex::construct_from(&log).unwrap();
    assert_eq!(index.get("a"), None);
    assert_eq!(index.get("b"), Some(a.len()));
    assert_eq!(index.len(), 1);

    let log = log_of(&[a.clone(), b.clone(), gone.clone(), a.clone()]);
    let index = KeyIndex::construct_from(&log).unwrap();
    assert_eq!(index.get("a"), Some(a.len() + b.len() + gone.len()));
    assert_eq!(index.len(), 2);
}

#[test]
fn a_tombstone_for_a_key_that_is_not_live_is_no_error() {
    let gone = Entry::new("a", vec![1]).unwrap().mark_delete().unwrap();
    let b = Entry::new("b", vec![2]).unwrap();
    let log = log_of(&[gone.clone(), b, gone.clone()]);
    let index = KeyIndex::construct_from(&log).unwrap();
    assert_eq!(index.get("a"), None);
    assert_eq!(index.get("b"), Some(gone.len()));
}

#[test]
fn replay_does_not_judge_checksums() {
    let a = Entry::new("a", vec![1]).unwrap();
    let mut log = log_of(&[a]);
    log[0] ^= 1;
    let index = KeyIndex::construct_from(&log).unwrap();
    assert_eq!(index.get("a"), Some(0));
}

#[test]
fn a_log_that_ends_inside_a_record_does_not_replay() {
    let a = Entry::new("a", vec![1]).unwrap();
    let b = Entry::new("b", vec![2]).unwrap();
    let log = log_of(&[a.clone(), b]);
    for cut in 0..log.len() {
        let res = KeyIndex::construct_from(&log[..cut]);
        if cut == 0 || cut as u64 == a.len() {
            assert!(res.is_ok(), "cut at {}", cut);
        } else {
            assert!(res.err().unwrap().is_eof(), "cut at {}", cut);
        }
    }
}

#[test]
fn a_log_with_an_unknown_state_or_a_bad_key_does_not_replay() {
    let a = Entry::new("a", vec![1]).unwrap();
    let b = Entry::new("b", vec![2]).unwrap();
    let mut log = log_of(&[a.clone(), b.clone()]);
    log[a.len() as usize + 4] = 0;
    assert_eq!(KeyIndex::construct_from(&log).err(), Some(KvsError::InvalidState(0)));
    let mut log = log_of(&[a.clone(), b]);
    log[a.len() as usize + 11] = 0x80;
    assert_eq!(KeyIndex::construct_from(&log).err(), Some(KvsError::InvalidKey));
}

#[test]
fn insert_and_remove_keep_each_key_once() {
    let mut index = KeyIndex::new();
    index.insert("a".to_string(), 1);
    index.insert("b".to_string(), 2);
    index.insert("c".to_string(), 3);
    index.insert("a".to_string(), 4);
    assert_eq!(index.len(), 3);
    assert_eq!(index.get("a"), Some(4));
    index.remove("a");
    index.remove("a");
    index.remove("zzz");
    assert_eq!(index.len(), 2);
    assert_eq!(index.get("a"), None);
    assert_eq!(index.get("b"), Some(2));
    assert_eq!(index.get("c"), Some(3));
    index.remove("c");
    index.remove("b");
    assert_eq!(index.len(), 0);
}
