//! The index from each live key to the offset of its latest record, and the
//! replay of a log that rebuilds it.

use crate::entry::{parse_record, Entry, Record, State};
use crate::error::KvsError;
use vstd::hash_map::StringHashMap;
use vstd::prelude::*;
use vstd::slice::slice_subrange;

verus! {

/// The index after one more record, found at `offset`, has been replayed: a
/// live record takes its key over, a tombstone removes it.
pub open spec fn index_step(index: Map<Seq<char>, nat>, r: Record, offset: nat) -> Map<
    Seq<char>,
    nat,
> {
    match r.state {
        State::Active => index.insert(r.key, offset),
        State::Deleted => index.remove(r.key),
    }
}

/// Replays the records of `log` from offset `pos` to its end, starting from
/// `index`. Ending exactly at the end of a record is success; any record that
/// cannot be read gives its error.
pub open spec fn replay_from(log: Seq<u8>, pos: nat, index: Map<Seq<char>, nat>) -> Result<
    Map<Seq<char>, nat>,
    KvsError,
>
    decreases log.len() - pos,
{
    if pos >= log.len() {
        Ok(index)
    } else {
        match parse_record(log.subrange(pos as int, log.len() as int)) {
            Err(e) => Err(e),
            Ok(r) => {
                proof {
                    crate::entry::lemma_bytes_of_parse(log.subrange(pos as int, log.len() as int));
                }
                replay_from(log, pos + r.len(), index_step(index, r, pos))
            },
        }
    }
}

/// Replays a whole log from an empty index.
pub open spec fn replay(log: Seq<u8>) -> Result<Map<Seq<char>, nat>, KvsError> {
    replay_from(log, 0, Map::empty())
}

/// Replaying from a record that reads is taking its step and replaying from
/// the record after it, which does not begin beyond the end of the log.
pub proof fn lemma_replay_from_step(log: Seq<u8>, pos: nat, index: Map<Seq<char>, nat>)
    requires
        pos < log.len(),
        parse_record(log.subrange(pos as int, log.len() as int)) is Ok,
    ensures
        ({
            let r = parse_record(log.subrange(pos as int, log.len() as int))->Ok_0;
            &&& r.fits()
            &&& pos + r.len() <= log.len()
            &&& replay_from(log, pos, index) == replay_from(
                log,
                pos + r.len(),
                index_step(index, r, pos),
            )
        }),
{
    crate::entry::lemma_bytes_of_parse(log.subrange(pos as int, log.len() as int));
}

/// Replaying from a record that cannot be read gives that record's error.
pub proof fn lemma_replay_from_error(log: Seq<u8>, pos: nat, index: Map<Seq<char>, nat>)
    requires
        pos < log.len(),
        parse_record(log.subrange(pos as int, log.len() as int)) is Err,
    ensures
        replay_from(log, pos, index) == Err::<Map<Seq<char>, nat>, KvsError>(
            parse_record(log.subrange(pos as int, log.len() as int))->Err_0,
        ),
{
}

/// Every key of `index` points at a record of `log` that is live and carries
/// that key.
pub open spec fn index_sound(log: Seq<u8>, index: Map<Seq<char>, nat>) -> bool {
    forall|k: Seq<char>| #[trigger]
        index.contains_key(k) ==> index[k] <= log.len() && (parse_record(
            log.subrange(index[k] as int, log.len() as int),
        ) matches Ok(r) && r.state == State::Active && r.key == k)
}

/// Replay keeps the index sound.
pub proof fn lemma_replay_from_sound(log: Seq<u8>, pos: nat, index: Map<Seq<char>, nat>)
    requires
        index_sound(log, index),
        replay_from(log, pos, index) is Ok,
    ensures
        index_sound(log, replay_from(log, pos, index)->Ok_0),
    decreases log.len() - pos,
{
    if pos < log.len() {
        let here = log.subrange(pos as int, log.len() as int);
        let r = parse_record(here)->Ok_0;
        let next = index_step(index, r, pos);
        crate::entry::lemma_bytes_of_parse(here);
        assert(index_sound(log, next)) by {
            assert forall|k: Seq<char>| #[trigger] next.contains_key(k) implies next[k] <= log.len()
                && (parse_record(log.subrange(next[k] as int, log.len() as int)) matches Ok(q)
                && q.state == State::Active && q.key == k) by {
                if r.state == State::Active && k == r.key {
                } else {
                    assert(index.contains_key(k));
                }
            }
        }
        lemma_replay_from_sound(log, pos + r.len(), next);
    }
}

/// The index that a log replays to is sound: this is what keeps every lookup
/// honest after a restart.
pub proof fn lemma_replay_sound(log: Seq<u8>)
    requires
        replay(log) is Ok,
    ensures
        index_sound(log, replay(log)->Ok_0),
{
    lemma_replay_from_sound(log, 0, Map::empty());
}

/// Appending one record to a log that replays extends the replay by that
/// record's step.
pub proof fn lemma_replay_from_append(
    log: Seq<u8>,
    pos: nat,
    index: Map<Seq<char>, nat>,
    r: Record,
)
    requires
        pos <= log.len(),
        r.fits(),
        replay_from(log, pos, index) is Ok,
    ensures
        replay_from(log + r.bytes(), pos, index) == Ok::<Map<Seq<char>, nat>, KvsError>(
            index_step(replay_from(log, pos, index)->Ok_0, r, log.len()),
        ),
    decreases log.len() - pos,
{
    let longer = log + r.bytes();
    crate::entry::lemma_parse_of_bytes(r, Seq::empty());
    assert(r.bytes() + Seq::<u8>::empty() =~= r.bytes());
    if pos == log.len() {
        assert(longer.subrange(pos as int, longer.len() as int) =~= r.bytes());
        assert(replay_from(longer, pos + r.len(), index_step(index, r, pos)) == Ok::<
            Map<Seq<char>, nat>,
            KvsError,
        >(index_step(index, r, pos)));
    } else {
        let here = log.subrange(pos as int, log.len() as int);
        let q = parse_record(here)->Ok_0;
        crate::entry::lemma_parse_ignores_rest(here, r.bytes());
        crate::entry::lemma_bytes_of_parse(here);
        assert(longer.subrange(pos as int, longer.len() as int) =~= here + r.bytes());
        lemma_replay_from_append(log, pos + q.len(), index_step(index, q, pos), r);
    }
}

/// Whatever follows a log that replays, replaying both together goes through
/// the same records and goes on, with the index of the first, where the first
/// ends.
pub proof fn lemma_replay_from_prefix(
    log: Seq<u8>,
    rest: Seq<u8>,
    pos: nat,
    index: Map<Seq<char>, nat>,
)
    requires
        pos <= log.len(),
        replay_from(log, pos, index) is Ok,
    ensures
        replay_from(log + rest, pos, index) == replay_from(
            log + rest,
            log.len(),
            replay_from(log, pos, index)->Ok_0,
        ),
    decreases log.len() - pos,
{
    if pos < log.len() {
        let longer = log + rest;
        let here = log.subrange(pos as int, log.len() as int);
        let q = parse_record(here)->Ok_0;
        crate::entry::lemma_parse_ignores_rest(here, rest);
        crate::entry::lemma_bytes_of_parse(here);
        assert(longer.subrange(pos as int, longer.len() as int) =~= here + rest);
        lemma_replay_from_prefix(log, rest, pos + q.len(), index_step(index, q, pos));
    }
}

/// Replaying from an offset looks at no byte before it: two logs of one
/// length that agree from that offset on replay alike from there.
pub proof fn lemma_replay_from_suffix(
    log: Seq<u8>,
    other: Seq<u8>,
    pos: nat,
    index: Map<Seq<char>, nat>,
)
    requires
        log.len() == other.len(),
        pos <= log.len(),
        log.subrange(pos as int, log.len() as int) == other.subrange(
            pos as int,
            other.len() as int,
        ),
    ensures
        replay_from(log, pos, index) == replay_from(other, pos, index),
    decreases log.len() - pos,
{
    if pos < log.len() {
        let here = log.subrange(pos as int, log.len() as int);
        if parse_record(here) is Ok {
            let q = parse_record(here)->Ok_0;
            crate::entry::lemma_bytes_of_parse(here);
            let next = pos + q.len();
            assert(log.subrange(next as int, log.len() as int) =~= here.subrange(
                q.len() as int,
                here.len() as int,
            ));
            assert(other.subrange(next as int, other.len() as int) =~= here.subrange(
                q.len() as int,
                here.len() as int,
            ));
            lemma_replay_from_suffix(log, other, next, index_step(index, q, pos));
        }
    }
}

/// Adding an item that a duplicate-free list does not hold keeps it
/// duplicate-free and adds that item alone.
proof fn lemma_push_fresh<A>(s: Seq<A>, a: A)
    requires
        s.no_duplicates(),
        !s.contains(a),
    ensures
        s.push(a).no_duplicates(),
        forall|k: A| #[trigger] s.push(a).contains(k) <==> (s.contains(k) || k == a),
{
    let t = s.push(a);
    assert forall|i: int, j: int| 0 <= i < t.len() && 0 <= j < t.len() && i != j implies t[i]
        != t[j] by {
        if i < s.len() {
            assert(s.contains(s[i]));
        }
        if j < s.len() {
            assert(s.contains(s[j]));
        }
    }
    assert forall|k: A| #[trigger] t.contains(k) <==> (s.contains(k) || k == a) by {
        if s.contains(k) {
            let i = choose|i: int| 0 <= i < s.len() && s[i] == k;
            assert(t[i] == k);
        }
        if k == a {
            assert(t[s.len() as int] == k);
        }
        if t.contains(k) {
            let i = choose|i: int| 0 <= i < t.len() && t[i] == k;
            if i < s.len() {
                assert(s[i] == k);
            }
        }
    }
}

/// Overwriting one item of a duplicate-free list with the last and dropping
/// the last keeps the list duplicate-free and removes that item alone.
proof fn lemma_swap_remove<A>(s: Seq<A>, i: int)
    requires
        s.no_duplicates(),
        0 <= i < s.len(),
    ensures
        s.update(i, s.last()).drop_last().no_duplicates(),
        forall|k: A| #[trigger]
            s.update(i, s.last()).drop_last().contains(k) <==> (s.contains(k) && k != s[i]),
{
    let t = s.update(i, s.last()).drop_last();
    let last = s.len() - 1;
    assert forall|k: A| #[trigger] t.contains(k) <==> (s.contains(k) && k != s[i]) by {
        if t.contains(k) {
            let j = choose|j: int| 0 <= j < t.len() && t[j] == k;
            if j == i {
                assert(s[last] == k);
            } else {
                assert(s[j] == k);
            }
        }
        if s.contains(k) && k != s[i] {
            let j = choose|j: int| 0 <= j < s.len() && s[j] == k;
            if j == last {
                assert(t[i] == k);
            } else {
                assert(t[j] == k);
            }
        }
    }
}

/// The index of a log: from each live key to the offset of its latest record.
///
/// The map answers lookups. The list holds every key of the map once and is
/// there to hand the keys out, which the map cannot do.
pub struct KeyIndex {
    map: StringHashMap<u64>,
    keys: Vec<String>,
}

impl View for KeyIndex {
    type V = Map<Seq<char>, nat>;

    closed spec fn view(&self) -> Map<Seq<char>, nat> {
        Map::new(|k: Seq<char>| self.map@.contains_key(k), |k: Seq<char>| self.map@[k] as nat)
    }
}

impl KeyIndex {
    /// The keys in the order in which `keys` hands them out.
    pub closed spec fn key_seq(&self) -> Seq<Seq<char>> {
        self.keys@.map_values(|k: String| k@)
    }

    /// The key list holds each key of the map exactly once.
    pub closed spec fn wf(&self) -> bool {
        &&& self.key_seq().no_duplicates()
        &&& forall|k: Seq<char>| self.map@.contains_key(k) <==> self.key_seq().contains(k)
    }

    /// The key list and the map hold the same keys, each once.
    pub proof fn lemma_keys(&self)
        requires
            self.wf(),
        ensures
            self.key_seq().no_duplicates(),
            self.key_seq().to_set() == self@.dom(),
    {
        assert(self.key_seq().to_set() =~= self@.dom());
    }

    /// The live keys, each once, in no particular order.
    pub(crate) fn key_list(&self) -> (keys: &Vec<String>)
        ensures
            keys@.map_values(|k: String| k@) == self.key_seq(),
    {
        &self.keys
    }

    /// An index without keys.
    pub fn new() -> (index: KeyIndex)
        ensures
            index.wf(),
            index@ == Map::<Seq<char>, nat>::empty(),
    {
        let index = KeyIndex { map: StringHashMap::new(), keys: Vec::new() };
        assert(index.key_seq() =~= Seq::empty());
        index
    }

    /// The offset of the key's record, if the key is live.
    pub fn get(&self, key: &str) -> (offset: Option<u64>)
        ensures
            match offset {
                Some(offset) => self@.contains_key(key@) && self@[key@] == offset,
                None => !self@.contains_key(key@),
            },
    {
        match self.map.get(key) {
            Some(offset) => Some(*offset),
            None => None,
        }
    }

    /// Whether the key is live.
    pub fn contains_key(&self, key: &str) -> (b: bool)
        ensures
            b == self@.contains_key(key@),
    {
        self.map.contains_key(key)
    }

    /// The number of live keys.
    pub fn len(&self) -> (n: usize)
        requires
            self.wf(),
        ensures
            n == self@.dom().len(),
    {
        proof {
            self.lemma_keys();
            self.key_seq().unique_seq_to_set();
        }
        self.keys.len()
    }

    /// Points `key` at `offset`, whether or not it was live before.
    pub fn insert(&mut self, key: String, offset: u64)
        requires
            old(self).wf(),
        ensures
            final(self).wf(),
            final(self)@ == old(self)@.insert(key@, offset as nat),
    {
        if !self.map.contains_key(key.as_str()) {
            let ghost before = self.key_seq();
            self.keys.push(key.clone());
            proof {
                assert(self.key_seq() =~= before.push(key@));
                lemma_push_fresh(before, key@);
            }
        }
        self.map.insert(key, offset);
        assert(self@ =~= old(self)@.insert(key@, offset as nat));
    }

    /// Forgets `key`; a key that is not live is left alone.
    pub fn remove(&mut self, key: &str)
        requires
            old(self).wf(),
        ensures
            final(self).wf(),
            final(self)@ == old(self)@.remove(key@),
    {
        if self.map.contains_key(key) {
            let wanted = key.to_owned();
            let ghost before = self.key_seq();
            let mut i: usize = 0;
            let n = self.keys.len();
            assert(before.contains(key@));
            while i < n && !self.keys[i].eq(&wanted)
                invariant
                    n == self.keys.len(),
                    before == self.key_seq(),
                    wanted@ == key@,
                    i <= n,
                    forall|j: int| 0 <= j < i ==> before[j] != key@,
                    before.contains(key@),
                decreases n - i,
            {
                i += 1;
            }
            assert(i < n);
            self.keys.swap_remove(i);
            proof {
                assert(before[i as int] == key@);
                assert(self.key_seq() =~= before.update(i as int, before.last()).drop_last());
                lemma_swap_remove(before, i as int);
            }
            self.map.remove(key);
        }
        assert(self@ =~= old(self)@.remove(key@));
    }

    /// Rebuilds the index by replaying every record of `bytes`, from its
    /// first byte to its end.
    ///
    /// Bytes that end exactly where a record ends replay to an index; bytes
    /// that hold a record that cannot be read are refused with that record's
    /// error, and no index is built.
    pub fn construct_from(bytes: &[u8]) -> (res: Result<KeyIndex, KvsError>)
        ensures
            match res {
                Ok(index) => index.wf() && replay(bytes@) == Ok::<Map<Seq<char>, nat>, KvsError>(
                    index@,
                ),
                Err(err) => replay(bytes@) == Err::<Map<Seq<char>, nat>, KvsError>(err),
            },
    {
        let n = bytes.len();
        let mut index = KeyIndex::new();
        let mut position: usize = 0;
        while position < n
            invariant
                n == bytes@.len(),
                position <= n,
                index.wf(),
                replay(bytes@) == replay_from(bytes@, position as nat, index@),
            decreases n - position,
        {
            match Entry::decode(slice_subrange(bytes, position, n)) {
                Err(err) => {
                    proof {
                        lemma_replay_from_error(bytes@, position as nat, index@);
                    }
                    return Err(err);
                },
                Ok(entry) => {
                    proof {
                        lemma_replay_from_step(bytes@, position as nat, index@);
                    }
                    let entry_len = entry.len();
                    if entry.is_deleted() {
                        index.remove(entry.key());
                    } else {
                        index.insert(entry.into_key(), position as u64);
                    }
                    position += entry_len as usize;
                },
            }
        }
        Ok(index)
    }
}

} // verus!
