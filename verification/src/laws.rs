//! What holds of every log: the laws that relate `put`, `get`, `delete` and
//! reopening.
//!
//! The engine's operations are specified as functions of the log's bytes, so
//! each law here is a statement about logs, and through the contracts of the
//! operations a statement about every engine.

use crate::engine::{
    log_after_delete, log_after_put, log_clean, log_contents, log_delete_result, log_get,
    log_index, log_valid,
};
use crate::entry::{
    lemma_bytes_of_parse, lemma_parse_ignores_rest, lemma_parse_of_bytes, parse_record,
    parse_record_checked, record_fits, sealed_record, Record, State,
};
use crate::error::KvsError;
use crate::index::{
    index_sound, index_step, lemma_replay_from_append, lemma_replay_sound, replay, replay_from,
};
use crate::wire::{be_value_u32, lemma_be_u32_bytes_of_value};
use vstd::prelude::*;

verus! {

/// Appending a record that fits to a log that replays gives a log that
/// replays, to the index of the first with the record's step taken.
pub proof fn law_append_replays(log: Seq<u8>, r: Record)
    requires
        log_valid(log),
        r.fits(),
    ensures
        log_valid(log + r.bytes()),
        log_index(log + r.bytes()) == index_step(log_index(log), r, log.len()),
{
    lemma_replay_from_append(log, 0, Map::empty(), r);
}

/// The log that holds the given records, one after the other.
pub open spec fn log_of(records: Seq<Record>) -> Seq<u8>
    decreases records.len(),
{
    if records.len() == 0 {
        Seq::empty()
    } else {
        log_of(records.drop_last()) + records.last().bytes()
    }
}

/// The index that the given records leave when they are taken in order, each
/// at the offset at which it stands in `log_of`.
pub open spec fn index_of(records: Seq<Record>) -> Map<Seq<char>, nat>
    decreases records.len(),
{
    if records.len() == 0 {
        Map::empty()
    } else {
        index_step(
            index_of(records.drop_last()),
            records.last(),
            log_of(records.drop_last()).len(),
        )
    }
}

/// Records that fit, written one after the other, make a log that replays,
/// and it replays to the index that taking them in order leaves: the last
/// record of a key decides about it.
pub proof fn law_records_replay(records: Seq<Record>)
    requires
        forall|i: int| 0 <= i < records.len() ==> (#[trigger] records[i]).fits(),
    ensures
        log_valid(log_of(records)),
        log_index(log_of(records)) == index_of(records),
    decreases records.len(),
{
    if records.len() > 0 {
        law_records_replay(records.drop_last());
        law_append_replays(log_of(records.drop_last()), records.last());
    }
}

/// The records that a log holds from the offset `pos` on, as far as they can
/// be read.
pub open spec fn records_from(log: Seq<u8>, pos: nat) -> Seq<Record>
    decreases log.len() - pos,
{
    if pos >= log.len() {
        Seq::empty()
    } else {
        match parse_record(log.subrange(pos as int, log.len() as int)) {
            Err(_) => Seq::empty(),
            Ok(r) => {
                proof {
                    lemma_bytes_of_parse(log.subrange(pos as int, log.len() as int));
                }
                seq![r] + records_from(log, pos + r.len())
            },
        }
    }
}

/// The log of a record followed by others begins with the bytes of that
/// record.
proof fn lemma_log_of_first(r: Record, rest: Seq<Record>)
    ensures
        log_of(seq![r] + rest) == r.bytes() + log_of(rest),
    decreases rest.len(),
{
    let all = seq![r] + rest;
    if rest.len() == 0 {
        assert(all.drop_last() =~= Seq::<Record>::empty());
        assert(all.last() == r);
        assert(log_of(all.drop_last()) =~= Seq::<u8>::empty());
        assert(log_of(rest) =~= Seq::<u8>::empty());
        assert(log_of(all) =~= r.bytes() + log_of(rest));
    } else {
        assert(all.drop_last() =~= seq![r] + rest.drop_last());
        assert(all.last() == rest.last());
        lemma_log_of_first(r, rest.drop_last());
        assert(log_of(all) =~= r.bytes() + log_of(rest));
    }
}

/// From an offset from which a log replays, the log is the bytes of the
/// records that it holds from there on, and each of them fits.
proof fn lemma_records_from(log: Seq<u8>, pos: nat, index: Map<Seq<char>, nat>)
    requires
        pos <= log.len(),
        replay_from(log, pos, index) is Ok,
    ensures
        forall|i: int|
            0 <= i < records_from(log, pos).len() ==> (#[trigger] records_from(log, pos)[i]).fits(),
        log_of(records_from(log, pos)) == log.subrange(pos as int, log.len() as int),
    decreases log.len() - pos,
{
    if pos < log.len() {
        let here = log.subrange(pos as int, log.len() as int);
        let r = parse_record(here)->Ok_0;
        let rest = records_from(log, pos + r.len());
        lemma_bytes_of_parse(here);
        lemma_records_from(log, pos + r.len(), index_step(index, r, pos));
        lemma_log_of_first(r, rest);
        assert(here =~= here.subrange(0, r.len() as int) + log.subrange(
            (pos + r.len()) as int,
            log.len() as int,
        ));
        assert forall|i: int| 0 <= i < records_from(log, pos).len() implies (
        #[trigger] records_from(log, pos)[i]).fits() by {
            if i > 0 {
                assert(records_from(log, pos)[i] == rest[i - 1]);
            }
        }
    } else {
        assert(log.subrange(pos as int, log.len() as int) =~= Seq::<u8>::empty());
    }
}

/// A log that replays is nothing but records that fit, written one after the
/// other: together with `law_records_replay`, this says what a valid log is.
pub proof fn law_valid_log_is_records(log: Seq<u8>)
    requires
        log_valid(log),
    ensures
        forall|i: int|
            0 <= i < records_from(log, 0).len() ==> (#[trigger] records_from(log, 0)[i]).fits(),
        log_of(records_from(log, 0)) == log,
        index_of(records_from(log, 0)) == log_index(log),
{
    lemma_records_from(log, 0, Map::empty());
    assert(log.subrange(0, log.len() as int) =~= log);
    law_records_replay(records_from(log, 0));
}

/// What the index holds for a key is read the same after a record has been
/// appended to the log.
proof fn lemma_lookup_ignores_append(log: Seq<u8>, r: Record, key: Seq<char>)
    requires
        log_valid(log),
        log_index(log).contains_key(key),
    ensures
        ({
            let at = log_index(log)[key] as int;
            let longer = log + r.bytes();
            parse_record_checked(longer.subrange(at, longer.len() as int)) == parse_record_checked(
                log.subrange(at, log.len() as int),
            )
        }),
{
    let at = log_index(log)[key] as int;
    let longer = log + r.bytes();
    lemma_replay_sound(log);
    lemma_parse_ignores_rest(log.subrange(at, log.len() as int), r.bytes());
    assert(longer.subrange(at, longer.len() as int) =~= log.subrange(at, log.len() as int)
        + r.bytes());
}

/// The record that was appended last is read back whole from where it was
/// appended.
proof fn lemma_lookup_of_appended(log: Seq<u8>, r: Record)
    requires
        r.fits(),
    ensures
        ({
            let longer = log + r.bytes();
            parse_record(longer.subrange(log.len() as int, longer.len() as int)) == Ok::<
                Record,
                KvsError,
            >(r)
        }),
{
    let longer = log + r.bytes();
    lemma_parse_of_bytes(r, Seq::empty());
    assert(longer.subrange(log.len() as int, longer.len() as int) =~= r.bytes() + Seq::<
        u8,
    >::empty());
}

/// Round trip: after `put(key, value)`, `get(key)` returns `value`, and the
/// log still replays.
pub proof fn law_put_then_get(log: Seq<u8>, key: Seq<char>, value: Seq<u8>)
    requires
        log_valid(log),
        record_fits(key, value),
    ensures
        log_valid(log_after_put(log, key, value)),
        log_get(log_after_put(log, key, value), key) == Ok::<Seq<u8>, KvsError>(value),
{
    let r = sealed_record(State::Active, key, value);
    law_append_replays(log, r);
    lemma_lookup_of_appended(log, r);
}

/// A `put` changes what `get` returns for its own key only.
pub proof fn law_put_keeps_other_keys(
    log: Seq<u8>,
    key: Seq<char>,
    value: Seq<u8>,
    other: Seq<char>,
)
    requires
        log_valid(log),
        other != key,
    ensures
        log_get(log_after_put(log, key, value), other) == log_get(log, other),
{
    if record_fits(key, value) {
        let r = sealed_record(State::Active, key, value);
        law_append_replays(log, r);
        if log_index(log).contains_key(other) {
            lemma_lookup_ignores_append(log, r, other);
        }
    }
}

/// Update overwrites: after `put(key, first)` and `put(key, second)`,
/// `get(key)` returns `second`.
pub proof fn law_put_overwrites(log: Seq<u8>, key: Seq<char>, first: Seq<u8>, second: Seq<u8>)
    requires
        log_valid(log),
        record_fits(key, first),
        record_fits(key, second),
    ensures
        log_get(log_after_put(log_after_put(log, key, first), key, second), key) == Ok::<
            Seq<u8>,
            KvsError,
        >(second),
{
    law_put_then_get(log, key, first);
    law_put_then_get(log_after_put(log, key, first), key, second);
}

/// A `delete` of a key whose value can be returned leaves a log that
/// replays, in which the key is not live.
pub proof fn law_delete_then_get(log: Seq<u8>, key: Seq<char>)
    requires
        log_valid(log),
    ensures
        log_valid(log_after_delete(log, key)),
        log_get(log, key) is Ok ==> log_get(log_after_delete(log, key), key) == Err::<
            Seq<u8>,
            KvsError,
        >(KvsError::NotFound),
{
    if log_get(log, key) is Ok {
        let at = log_index(log)[key] as int;
        lemma_replay_sound(log);
        lemma_bytes_of_parse(log.subrange(at, log.len() as int));
        law_append_replays(log, sealed_record(State::Deleted, key, Seq::empty()));
    }
}

/// A `delete` changes what `get` returns for its own key only.
pub proof fn law_delete_keeps_other_keys(log: Seq<u8>, key: Seq<char>, other: Seq<char>)
    requires
        log_valid(log),
        other != key,
    ensures
        log_get(log_after_delete(log, key), other) == log_get(log, other),
{
    if log_get(log, key) is Ok {
        let at = log_index(log)[key] as int;
        let r = sealed_record(State::Deleted, key, Seq::empty());
        lemma_replay_sound(log);
        lemma_bytes_of_parse(log.subrange(at, log.len() as int));
        law_append_replays(log, r);
        if log_index(log).contains_key(other) {
            lemma_lookup_ignores_append(log, r, other);
        }
    }
}

/// Delete then get: after `put(key, value)`, `delete(key)` returns
/// `Some(value)`; then `get(key)` fails with `NotFound`, and a second
/// `delete(key)` returns `None` and appends nothing.
pub proof fn law_put_delete_get(log: Seq<u8>, key: Seq<char>, value: Seq<u8>)
    requires
        log_valid(log),
        record_fits(key, value),
    ensures
        ({
            let stored = log_after_put(log, key, value);
            let deleted = log_after_delete(stored, key);
            &&& log_delete_result(stored, key) == Ok::<Option<Seq<u8>>, KvsError>(Some(value))
            &&& log_get(deleted, key) == Err::<Seq<u8>, KvsError>(KvsError::NotFound)
            &&& log_delete_result(deleted, key) == Ok::<Option<Seq<u8>>, KvsError>(None)
            &&& log_after_delete(deleted, key) == deleted
        }),
{
    law_put_then_get(log, key, value);
    law_delete_then_get(log_after_put(log, key, value), key);
}

/// A tombstone is shorter than a record of the same key that carries a
/// value: it is the header and the key, nothing more.
pub proof fn law_tombstone_is_shorter(r: Record)
    requires
        r.fits(),
        r.value.len() > 0,
    ensures
        r.tombstone().fits(),
        r.tombstone().bytes().len() == r.tombstone().len(),
        r.tombstone().len() == 11 + vstd::utf8::encode_utf8(r.key).len(),
        r.tombstone().len() < r.len(),
{
    lemma_parse_of_bytes(r.tombstone(), Seq::empty());
}

/// An empty log is clean and stores nothing.
pub proof fn law_empty_log_is_empty()
    ensures
        log_clean(Seq::empty()),
        log_contents(Seq::empty()) == Map::<Seq<char>, Seq<u8>>::empty(),
{
    assert(log_contents(Seq::empty()) =~= Map::<Seq<char>, Seq<u8>>::empty());
}

/// On a clean log, `get` is a lookup in what the log stores.
pub proof fn law_get_is_lookup(log: Seq<u8>, key: Seq<char>)
    requires
        log_clean(log),
    ensures
        log_get(log, key) == (if log_contents(log).contains_key(key) {
            Ok::<Seq<u8>, KvsError>(log_contents(log)[key])
        } else {
            Err::<Seq<u8>, KvsError>(KvsError::NotFound)
        }),
{
}

/// On a clean log, `put` is an insertion into what the log stores, and
/// leaves the log clean.
pub proof fn law_put_is_insert(log: Seq<u8>, key: Seq<char>, value: Seq<u8>)
    requires
        log_clean(log),
        record_fits(key, value),
    ensures
        log_clean(log_after_put(log, key, value)),
        log_contents(log_after_put(log, key, value)) == log_contents(log).insert(key, value),
{
    let after = log_after_put(log, key, value);
    law_put_then_get(log, key, value);
    law_append_replays(log, sealed_record(State::Active, key, value));
    assert forall|k: Seq<char>| #[trigger] log_index(after).contains_key(k) implies log_get(
        after,
        k,
    ) is Ok by {
        if k != key {
            law_put_keeps_other_keys(log, key, value, k);
        }
    }
    assert forall|k: Seq<char>| #[trigger]
        log_contents(log).insert(key, value).contains_key(k) implies log_contents(after)[k]
        == log_contents(log).insert(key, value)[k] by {
        if k != key {
            law_put_keeps_other_keys(log, key, value, k);
        }
    }
    assert(log_contents(after) =~= log_contents(log).insert(key, value));
}

/// On a clean log, `delete` is a removal from what the log stores: it
/// returns the value that the key had, or `None` if it had none, and leaves
/// the log clean.
pub proof fn law_delete_is_remove(log: Seq<u8>, key: Seq<char>)
    requires
        log_clean(log),
    ensures
        log_clean(log_after_delete(log, key)),
        log_contents(log_after_delete(log, key)) == log_contents(log).remove(key),
        log_delete_result(log, key) == Ok::<Option<Seq<u8>>, KvsError>(
            if log_contents(log).contains_key(key) {
                Some(log_contents(log)[key])
            } else {
                None
            },
        ),
{
    let after = log_after_delete(log, key);
    law_delete_then_get(log, key);
    if log_get(log, key) is Ok {
        let at = log_index(log)[key] as int;
        lemma_replay_sound(log);
        lemma_bytes_of_parse(log.subrange(at, log.len() as int));
        law_append_replays(log, sealed_record(State::Deleted, key, Seq::empty()));
    }
    assert forall|k: Seq<char>| #[trigger] log_index(after).contains_key(k) implies log_get(
        after,
        k,
    ) is Ok by {
        if k != key {
            law_delete_keeps_other_keys(log, key, k);
        }
    }
    assert forall|k: Seq<char>| #[trigger]
        log_contents(log).remove(key).contains_key(k) implies log_contents(after)[k]
        == log_contents(log).remove(key)[k] by {
        law_delete_keeps_other_keys(log, key, k);
    }
    assert(log_contents(after) =~= log_contents(log).remove(key));
}

/// One mutation of a store: what a caller asks of `put` or of `delete`.
pub enum Mutation {
    Put { key: Seq<char>, value: Seq<u8> },
    Delete { key: Seq<char> },
}

/// The log after one mutation.
pub open spec fn log_after(log: Seq<u8>, m: Mutation) -> Seq<u8> {
    match m {
        Mutation::Put { key, value } => log_after_put(log, key, value),
        Mutation::Delete { key } => log_after_delete(log, key),
    }
}

/// The log after a sequence of mutations, the first of them applied first.
pub open spec fn log_after_all(log: Seq<u8>, ms: Seq<Mutation>) -> Seq<u8>
    decreases ms.len(),
{
    if ms.len() == 0 {
        log
    } else {
        log_after(log_after_all(log, ms.drop_last()), ms.last())
    }
}

/// What a store holds after one mutation: `put` inserts, unless the record is
/// refused, and `delete` removes.
pub open spec fn contents_after(
    contents: Map<Seq<char>, Seq<u8>>,
    m: Mutation,
) -> Map<Seq<char>, Seq<u8>> {
    match m {
        Mutation::Put { key, value } => if record_fits(key, value) {
            contents.insert(key, value)
        } else {
            contents
        },
        Mutation::Delete { key } => contents.remove(key),
    }
}

/// What a store holds after a sequence of mutations, the first of them
/// applied first.
pub open spec fn contents_after_all(
    contents: Map<Seq<char>, Seq<u8>>,
    ms: Seq<Mutation>,
) -> Map<Seq<char>, Seq<u8>>
    decreases ms.len(),
{
    if ms.len() == 0 {
        contents
    } else {
        contents_after(contents_after_all(contents, ms.drop_last()), ms.last())
    }
}

/// The log is a map: whatever sequence of `put` and `delete` a clean log has
/// gone through, it is clean and stores what a map would hold after the same
/// insertions and removals. What it stores is read off its bytes alone, so an
/// engine that is opened on those bytes later gives the same answer for every
/// key, and keys that were deleted stay absent.
pub proof fn law_history_is_a_map(log: Seq<u8>, ms: Seq<Mutation>)
    requires
        log_clean(log),
    ensures
        log_clean(log_after_all(log, ms)),
        log_contents(log_after_all(log, ms)) == contents_after_all(log_contents(log), ms),
    decreases ms.len(),
{
    if ms.len() > 0 {
        let before = log_after_all(log, ms.drop_last());
        law_history_is_a_map(log, ms.drop_last());
        match ms.last() {
            Mutation::Put { key, value } => {
                if record_fits(key, value) {
                    law_put_is_insert(before, key, value);
                }
            },
            Mutation::Delete { key } => {
                law_delete_is_remove(before, key);
            },
        }
    }
}

/// Durability: whatever sequence of `put` and `delete` a log that replays
/// has gone through, it still replays. So an engine can always be reopened on
/// the bytes that another has written, and since `get` is a function of the
/// log alone, both give the same answer for every key.
pub proof fn law_history_replays(log: Seq<u8>, ms: Seq<Mutation>)
    requires
        log_valid(log),
    ensures
        log_valid(log_after_all(log, ms)),
    decreases ms.len(),
{
    if ms.len() > 0 {
        let before = log_after_all(log, ms.drop_last());
        law_history_replays(log, ms.drop_last());
        match ms.last() {
            Mutation::Put { key, value } => {
                if record_fits(key, value) {
                    law_put_then_get(before, key, value);
                }
            },
            Mutation::Delete { key } => {
                law_delete_then_get(before, key);
            },
        }
    }
}

/// The index of a log that replays is sound: each of its keys points at a
/// record of the log that is live and carries that key.
pub proof fn law_index_sound(log: Seq<u8>)
    requires
        log_valid(log),
    ensures
        index_sound(log, log_index(log)),
{
    lemma_replay_sound(log);
}

/// `get` never returns a value whose record fails its checksum: a value comes
/// back only from a live record of that key whose stored checksum is the
/// checksum of its contents, and the only other answers are `NotFound` and
/// `CorruptData`.
pub proof fn law_get_is_checked(log: Seq<u8>, key: Seq<char>)
    requires
        log_valid(log),
    ensures
        match log_get(log, key) {
            Ok(value) => log_index(log).contains_key(key) && (parse_record(
                log.subrange(log_index(log)[key] as int, log.len() as int),
            ) matches Ok(r) && r.sealed() && r.state == State::Active && r.key == key && r.value
                == value),
            Err(KvsError::NotFound) => !log_index(log).contains_key(key),
            Err(e) => e == KvsError::CorruptData && log_index(log).contains_key(key),
        },
{
    lemma_replay_sound(log);
}

/// Replaying a log that holds a record behind a part that replays reads
/// that record where the part ends, takes its step, and goes on behind it.
proof fn lemma_replay_through(before: Seq<u8>, r: Record, after: Seq<u8>)
    requires
        log_valid(before),
        r.fits(),
    ensures
        ({
            let log = before + r.bytes() + after;
            &&& log.len() == before.len() + r.len() + after.len()
            &&& parse_record(log.subrange(before.len() as int, log.len() as int)) == Ok::<
                Record,
                KvsError,
            >(r)
            &&& log.subrange((before.len() + r.len()) as int, log.len() as int) == after
            &&& replay(log) == replay_from(
                log,
                before.len() + r.len(),
                index_step(log_index(before), r, before.len()),
            )
        }),
{
    let log = before + r.bytes() + after;
    let at = before.len();
    lemma_parse_of_bytes(r, after);
    assert(log =~= before + (r.bytes() + after));
    assert(log.subrange(at as int, log.len() as int) =~= r.bytes() + after);
    assert(log.subrange((at + r.len()) as int, log.len() as int) =~= after);
    crate::index::lemma_replay_from_prefix(before, r.bytes() + after, 0, Map::empty());
    crate::index::lemma_replay_from_step(log, at, log_index(before));
}

/// Checksum integrity in a log. Let a live record sit in a log behind a part
/// that replays, and let the index point at it. Replace it by a record of the
/// same key and of the same length (another checksum, other value bytes, or
/// both). Then the log replays to the same index as before, and `get` of that
/// key fails with `CorruptData`, unless the checksum that now stands there is
/// the checksum of the contents that now stand there.
pub proof fn law_tampered_record_is_found(
    before: Seq<u8>,
    r: Record,
    after: Seq<u8>,
    tampered: Record,
)
    requires
        log_valid(before),
        r.fits(),
        r.state == State::Active,
        log_valid(before + r.bytes() + after),
        log_index(before + r.bytes() + after).contains_key(r.key),
        log_index(before + r.bytes() + after)[r.key] == before.len(),
        tampered.state == r.state,
        tampered.key == r.key,
        tampered.value.len() == r.value.len(),
    ensures
        log_valid(before + tampered.bytes() + after),
        log_index(before + tampered.bytes() + after) == log_index(before + r.bytes() + after),
        log_get(before + tampered.bytes() + after, r.key) == (if tampered.sealed() {
            Ok::<Seq<u8>, KvsError>(tampered.value)
        } else {
            Err::<Seq<u8>, KvsError>(KvsError::CorruptData)
        }),
{
    let log = before + r.bytes() + after;
    let other = before + tampered.bytes() + after;
    let next = before.len() + r.len();
    let stepped = index_step(log_index(before), r, before.len());
    lemma_replay_through(before, r, after);
    lemma_replay_through(before, tampered, after);
    assert(index_step(log_index(before), tampered, before.len()) == stepped);
    crate::index::lemma_replay_from_suffix(log, other, next, stepped);
    assert(replay(other) == replay(log));
}

/// Checksum integrity in a log, for the checksum field: change the stored
/// checksum of a live record whose checksum held, and `get` of its key fails
/// with `CorruptData`.
pub proof fn law_tampered_checksum_is_found(
    before: Seq<u8>,
    r: Record,
    after: Seq<u8>,
    checksum: u32,
)
    requires
        log_valid(before),
        r.fits(),
        r.sealed(),
        r.state == State::Active,
        log_valid(before + r.bytes() + after),
        log_index(before + r.bytes() + after).contains_key(r.key),
        log_index(before + r.bytes() + after)[r.key] == before.len(),
        checksum != r.checksum,
    ensures
        log_get(
            before + Record { checksum, ..r }.bytes() + after,
            r.key,
        ) == Err::<Seq<u8>, KvsError>(KvsError::CorruptData),
{
    law_tampered_record_is_found(before, r, after, Record { checksum, ..r });
}

/// Checksum integrity of one record: change any of the four stored checksum
/// bytes of a record that passes its check, and nothing else, and the record
/// is refused with `CorruptData`.
pub proof fn law_tampered_checksum_is_refused(b: Seq<u8>, t: Seq<u8>)
    requires
        parse_record_checked(b) is Ok,
        t.len() == b.len(),
        t.subrange(4, t.len() as int) == b.subrange(4, b.len() as int),
        t.subrange(0, 4) != b.subrange(0, 4),
    ensures
        parse_record_checked(t) == Err::<Record, KvsError>(KvsError::CorruptData),
{
    reveal(parse_record);
    let key_end = 11 + crate::wire::be_value_u16(b.subrange(5, 7));
    let end = key_end + be_value_u32(b.subrange(7, 11));
    assert forall|i: int| 4 <= i < b.len() implies t[i] == b[i] by {
        assert(t[i] == t.subrange(4, t.len() as int)[i - 4]);
        assert(b[i] == b.subrange(4, b.len() as int)[i - 4]);
    }
    assert(t.subrange(5, 7) =~= b.subrange(5, 7));
    assert(t.subrange(7, 11) =~= b.subrange(7, 11));
    assert(t.subrange(11, key_end) =~= b.subrange(11, key_end));
    assert(t.subrange(key_end, end) =~= b.subrange(key_end, end));
    lemma_be_u32_bytes_of_value(b);
    lemma_be_u32_bytes_of_value(t);
}

/// Checksum integrity of one record, whatever was done to its bytes: it is
/// accepted only if the checksum it carries is the checksum of the contents
/// it then has.
pub proof fn law_accepted_record_is_sealed(t: Seq<u8>)
    requires
        parse_record_checked(t) is Ok,
    ensures
        ({
            let r = parse_record_checked(t)->Ok_0;
            &&& r.fits()
            &&& t.subrange(0, r.len() as int) == r.bytes()
            &&& be_value_u32(t) == crate::wire::crc32(t.subrange(4, r.len() as int))
        }),
{
    reveal(parse_record);
    let r = parse_record_checked(t)->Ok_0;
    lemma_bytes_of_parse(t);
    assert(t.subrange(4, r.len() as int) =~= r.payload()) by {
        assert(r.bytes().subrange(4, r.len() as int) =~= r.payload());
        assert(t.subrange(0, r.len() as int).subrange(4, r.len() as int) =~= t.subrange(
            4,
            r.len() as int,
        ));
    }
}

} // verus!
