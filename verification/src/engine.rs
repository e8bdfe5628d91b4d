//! The engine: the one owner of the log, its index and its append cursor.
//!
//! The log is the truth. Every `put` and `delete` appends one record to it and
//! never rewrites a byte; the index and the cursor are what replaying the log
//! gives, kept up to date as records are appended.

use crate::entry::{
    fit_error, parse_record_checked, record_fits, sealed_record, Entry, Record, State,
};
use crate::error::{IoErrorKind, KvsError};
use crate::index::{index_sound, replay, KeyIndex};
use vstd::prelude::*;
use vstd::slice::slice_subrange;

verus! {

/// Whether a log can be replayed from its first byte to its last.
pub open spec fn log_valid(log: Seq<u8>) -> bool {
    replay(log) is Ok
}

/// The index of a log that can be replayed.
pub open spec fn log_index(log: Seq<u8>) -> Map<Seq<char>, nat> {
    replay(log)->Ok_0
}

/// What `get` answers on a log: `NotFound` for a key that is not live, else
/// the value of the record that the index points at, provided that its
/// checksum holds.
pub open spec fn log_get(log: Seq<u8>, key: Seq<char>) -> Result<Seq<u8>, KvsError> {
    if !log_index(log).contains_key(key) {
        Err(KvsError::NotFound)
    } else {
        match parse_record_checked(log.subrange(log_index(log)[key] as int, log.len() as int)) {
            Ok(r) => Ok(r.value),
            Err(e) => Err(e),
        }
    }
}

/// Whether a log replays and every live record in it passes its checksum.
pub open spec fn log_clean(log: Seq<u8>) -> bool {
    log_valid(log) && forall|key: Seq<char>| #[trigger]
        log_index(log).contains_key(key) ==> log_get(log, key) is Ok
}

/// What a clean log stores: the value of each live key.
pub open spec fn log_contents(log: Seq<u8>) -> Map<Seq<char>, Seq<u8>> {
    Map::new(
        |key: Seq<char>| log_index(log).contains_key(key),
        |key: Seq<char>| log_get(log, key)->Ok_0,
    )
}

/// What `put` answers: a key or a value that is too long for the record
/// format is refused, the key being judged first; anything else is stored.
pub open spec fn log_put_result(key: Seq<char>, value: Seq<u8>) -> Result<(), KvsError> {
    if record_fits(key, value) {
        Ok(())
    } else {
        Err(fit_error(key, value))
    }
}

/// The log after `put`: one live record more, unless the record was refused.
pub open spec fn log_after_put(log: Seq<u8>, key: Seq<char>, value: Seq<u8>) -> Seq<u8> {
    if record_fits(key, value) {
        log + sealed_record(State::Active, key, value).bytes()
    } else {
        log
    }
}

/// What `delete` answers: the value that `get` would have returned, `None`
/// for a key that is not live, and the error of `get` otherwise.
pub open spec fn log_delete_result(log: Seq<u8>, key: Seq<char>) -> Result<
    Option<Seq<u8>>,
    KvsError,
> {
    match log_get(log, key) {
        Ok(value) => Ok(Some(value)),
        Err(KvsError::NotFound) => Ok(None),
        Err(e) => Err(e),
    }
}

/// The log after `delete`: one tombstone more if the key's value could be
/// returned, and no change otherwise.
pub open spec fn log_after_delete(log: Seq<u8>, key: Seq<char>) -> Seq<u8> {
    if log_get(log, key) is Ok {
        log + sealed_record(State::Deleted, key, Seq::empty()).bytes()
    } else {
        log
    }
}

/// A `delete` result with its value taken as a sequence of bytes.
pub open spec fn deleted_view(res: Result<Option<Vec<u8>>, KvsError>) -> Result<
    Option<Seq<u8>>,
    KvsError,
> {
    match res {
        Ok(Some(value)) => Ok(Some(value@)),
        Ok(None) => Ok(None),
        Err(e) => Err(e),
    }
}

/// A `get` result with its value taken as a sequence of bytes.
pub open spec fn value_view(res: Result<Vec<u8>, KvsError>) -> Result<Seq<u8>, KvsError> {
    match res {
        Ok(value) => Ok(value@),
        Err(e) => Err(e),
    }
}

/// A key-value store over an append-only log held in memory.
pub struct Engine {
    log: Vec<u8>,
    index: KeyIndex,
    position: u64,
}

impl View for Engine {
    type V = Seq<u8>;

    /// The bytes of the log.
    closed spec fn view(&self) -> Seq<u8> {
        self.log@
    }
}

/// The live keys of an engine, handed out one by one.
pub struct Keys<'a> {
    keys: &'a Vec<String>,
    next: usize,
}

impl<'a> Keys<'a> {
    #[verifier::type_invariant]
    spec fn in_range(&self) -> bool {
        self.next <= self.keys@.len()
    }

    /// The keys that are still to come, in the order in which they come.
    pub closed spec fn remaining(&self) -> Seq<Seq<char>> {
        self.keys@.map_values(|k: String| k@).skip(self.next as int)
    }

    /// The next key, or `None` when every key has been handed out.
    pub fn next(&mut self) -> (key: Option<&'a String>)
        ensures
            match key {
                Some(k) => old(self).remaining().len() > 0 && k@ == old(self).remaining()[0]
                    && final(self).remaining() == old(self).remaining().skip(1),
                None => old(self).remaining().len() == 0 && final(self).remaining() == old(self)
                    .remaining(),
            },
    {
        proof {
            use_type_invariant(&*self);
        }
        if self.next < self.keys.len() {
            let key = &self.keys[self.next];
            self.next += 1;
            assert(self.remaining() =~= old(self).remaining().skip(1));
            Some(key)
        } else {
            None
        }
    }
}

impl Engine {
    /// The cursor is at the end of the log and the index is what replaying
    /// the log gives.
    pub closed spec fn wf(&self) -> bool {
        &&& self.position == self.log@.len()
        &&& self.index.wf()
        &&& replay(self.log@) == Ok::<Map<Seq<char>, nat>, KvsError>(self.index@)
    }

    /// The offset at which the next record will be appended.
    pub closed spec fn cursor(&self) -> u64 {
        self.position
    }

    /// A well-formed engine holds a log that replays, its cursor is the
    /// length of that log, and every key of its index points at a live record
    /// of that key.
    pub proof fn lemma_wf(&self)
        requires
            self.wf(),
        ensures
            log_valid(self@),
            self.cursor() == self@.len(),
            index_sound(self@, log_index(self@)),
    {
        crate::index::lemma_replay_sound(self.log@);
    }

    /// Opens an engine on an existing log by replaying it; an empty log is
    /// valid. A log that cannot be replayed is refused with the error of its
    /// first unreadable record, and no engine is made.
    pub fn new(log: Vec<u8>) -> (res: Result<Engine, KvsError>)
        ensures
            match res {
                Ok(engine) => engine.wf() && engine@ == log@ && log_valid(log@),
                Err(err) => replay(log@) == Err::<Map<Seq<char>, nat>, KvsError>(err),
            },
    {
        let index = match KeyIndex::construct_from(log.as_slice()) {
            Ok(index) => index,
            Err(err) => {
                return Err(err);
            },
        };
        let position = log.len() as u64;
        Ok(Engine { log, index, position })
    }

    /// Stores `value` under `key`: appends a live record and points the index
    /// at it. A key or value too long for the record format is refused and
    /// nothing changes.
    pub fn put(&mut self, key: &str, value: Vec<u8>) -> (res: Result<(), KvsError>)
        requires
            old(self).wf(),
        ensures
            final(self).wf(),
            res == log_put_result(key@, value@),
            final(self)@ == log_after_put(old(self)@, key@, value@),
    {
        let entry = match Entry::new(key, value) {
            Ok(entry) => entry,
            Err(err) => {
                return Err(err);
            },
        };
        proof {
            crate::index::lemma_replay_from_append(self.log@, 0, Map::empty(), entry@);
        }
        self.put_entry(entry, true);
        Ok(())
    }

    /// Appends `entry` to the log and moves the cursor past it; with
    /// `update_index`, also points the index at the new record.
    fn put_entry(&mut self, entry: Entry, update_index: bool)
        requires
            old(self).position == old(self).log@.len(),
            old(self).index.wf(),
        ensures
            final(self).log@ == old(self).log@ + entry@.bytes(),
            final(self).position == final(self).log@.len(),
            final(self).index.wf(),
            final(self).index@ == (if update_index {
                old(self).index@.insert(entry@.key, old(self).position as nat)
            } else {
                old(self).index@
            }),
    {
        let n = entry.encode(&mut self.log);
        assert(self.log@.len() == self.log.len());
        if update_index {
            self.index.insert(entry.into_key(), self.position);
        }
        self.position = self.position + n;
    }

    /// The value stored under `key`.
    ///
    /// Fails with `NotFound` when the key is not live and with `CorruptData`
    /// when the checksum of its record does not hold.
    pub fn get(&self, key: &str) -> (res: Result<Vec<u8>, KvsError>)
        requires
            self.wf(),
        ensures
            value_view(res) == log_get(self@, key@),
    {
        match self.get_entry(key) {
            Ok(entry) => Ok(entry.into_value()),
            Err(err) => Err(err),
        }
    }

    /// The record that the index holds for `key`, with its checksum judged.
    fn get_entry(&self, key: &str) -> (res: Result<Entry, KvsError>)
        requires
            self.wf(),
        ensures
            match res {
                Ok(entry) => self.index@.contains_key(key@) && parse_record_checked(
                    self.log@.subrange(self.index@[key@] as int, self.log@.len() as int),
                ) == Ok::<Record, KvsError>(entry@) && entry@.key == key@,
                Err(err) => log_get(self@, key@) == Err::<Seq<u8>, KvsError>(err),
            },
    {
        proof {
            self.lemma_wf();
        }
        match self.index.get(key) {
            Some(offset) => {
                let n = self.log.len();
                Entry::decode_with_check(slice_subrange(self.log.as_slice(), offset as usize, n))
            },
            None => Err(KvsError::NotFound),
        }
    }

    /// Deletes `key` and returns the value it had: appends a tombstone and
    /// drops the key from the index. A key that is not live gives `None` and
    /// nothing changes; a record whose checksum does not hold gives
    /// `CorruptData` and nothing changes.
    pub fn delete(&mut self, key: &str) -> (res: Result<Option<Vec<u8>>, KvsError>)
        requires
            old(self).wf(),
        ensures
            final(self).wf(),
            deleted_view(res) == log_delete_result(old(self)@, key@),
            final(self)@ == log_after_delete(old(self)@, key@),
    {
        match self.delete_entry(key) {
            Ok(Some(entry)) => Ok(Some(entry.into_value())),
            Ok(None) => Ok(None),
            Err(err) => Err(err),
        }
    }

    /// Appends the tombstone of a live key and drops the key from the index;
    /// returns the record that was live.
    fn delete_entry(&mut self, key: &str) -> (res: Result<Option<Entry>, KvsError>)
        requires
            old(self).wf(),
        ensures
            final(self).wf(),
            final(self)@ == log_after_delete(old(self)@, key@),
            match res {
                Ok(Some(entry)) => log_get(old(self)@, key@) == Ok::<Seq<u8>, KvsError>(
                    entry@.value,
                ),
                Ok(None) => log_get(old(self)@, key@) == Err::<Seq<u8>, KvsError>(
                    KvsError::NotFound,
                ),
                Err(err) => err != KvsError::NotFound && log_get(old(self)@, key@) == Err::<
                    Seq<u8>,
                    KvsError,
                >(err),
            },
    {
        let entry = match self.get_entry(key) {
            Ok(entry) => entry,
            Err(KvsError::NotFound) => {
                return Ok(None);
            },
            Err(err) => {
                return Err(err);
            },
        };
        let tombstone = match entry.mark_delete() {
            Ok(tombstone) => tombstone,
            Err(err) => {
                return Err(err);
            },
        };
        proof {
            crate::index::lemma_replay_from_append(self.log@, 0, Map::empty(), tombstone@);
        }
        self.put_entry(tombstone, false);
        self.index.remove(key);
        Ok(Some(entry))
    }

    /// The live keys, each once, in no particular order.
    pub fn keys(&self) -> (keys: Keys<'_>)
        requires
            self.wf(),
        ensures
            keys.remaining().no_duplicates(),
            keys.remaining().to_set() == log_index(self@).dom(),
    {
        proof {
            self.index.lemma_keys();
        }
        let keys = Keys { keys: self.index.key_list(), next: 0 };
        assert(keys.remaining() =~= self.index.key_seq());
        keys
    }

    /// The offset at which the next record will be appended: the length of
    /// the log.
    pub fn position(&self) -> (position: u64)
        requires
            self.wf(),
        ensures
            position == self@.len(),
    {
        self.position
    }

    /// The bytes of the log, from its first record to its last.
    pub fn log(&self) -> (bytes: &Vec<u8>)
        ensures
            bytes@ == self@,
    {
        &self.log
    }

    /// Fills `buf`, keeping its length, with the bytes that the log begins
    /// with. A buffer longer than the log is refused with the end-of-stream
    /// error and left as it was.
    pub fn dump(&self, buf: &mut Vec<u8>) -> (res: Result<(), KvsError>)
        ensures
            match res {
                Ok(()) => old(buf)@.len() <= self@.len() && final(buf)@ == self@.subrange(
                    0,
                    old(buf)@.len() as int,
                ),
                Err(err) => old(buf)@.len() > self@.len() && err == KvsError::eof() && final(buf)@
                    == old(buf)@,
            },
    {
        let n = buf.len();
        if n > self.log.len() {
            return Err(KvsError::Io { kind: IoErrorKind::UnexpectedEof });
        }
        buf.clear();
        buf.extend_from_slice(slice_subrange(self.log.as_slice(), 0, n));
        assert(buf@ =~= self@.subrange(0, n as int));
        Ok(())
    }
}

} // verus!
