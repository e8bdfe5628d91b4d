//! The record ("entry") that the log is made of, its byte layout and its
//! checksum.
//!
//! A record is laid out as a four-byte checksum, one state byte, a two-byte key
//! length, a four-byte value length (all integers big-endian), the key's UTF-8
//! bytes and the value's bytes. The checksum covers everything after itself.

use crate::error::{IoErrorKind, KvsError};
use crate::wire::{
    be_bytes_u16, be_bytes_u32, be_value_u16, be_value_u32, crc32, crc32_of, read_u16_be,
    read_u32_be, write_u16_be, write_u32_be,
};
use crate::{MAX_KEY_BYTES, MAX_VALUE_BYTES};
use vstd::prelude::*;
use vstd::slice::{slice_subrange, slice_to_vec};
use vstd::utf8::{decode_utf8, encode_utf8, valid_utf8};

verus! {

/// Bytes of a record that come before its key.
pub const HEADER_LEN: u64 = 11;

/// Whether a record carries a value or marks its key as deleted.
#[derive(Clone, Copy, Debug, PartialEq, Eq, Structural)]
pub enum State {
    /// The record holds the key's current value.
    Active,
    /// The record is a tombstone: the key has been deleted.
    Deleted,
}

impl State {
    /// The byte that stands for this state in the log.
    pub open spec fn byte(self) -> u8 {
        match self {
            State::Active => 1,
            State::Deleted => 2,
        }
    }

    /// The state that a byte of the log stands for, if any.
    pub open spec fn parse(n: u8) -> Result<State, KvsError> {
        if n == 1 {
            Ok(State::Active)
        } else if n == 2 {
            Ok(State::Deleted)
        } else {
            Err(KvsError::InvalidState(n))
        }
    }

    /// The byte that stands for this state in the log.
    pub fn to_u8(self) -> (b: u8)
        ensures
            b == self.byte(),
    {
        match self {
            State::Active => 1,
            State::Deleted => 2,
        }
    }

    /// Reads a state byte; any byte but 1 and 2 is refused with
    /// `InvalidState`.
    pub fn try_from(n: u8) -> (res: Result<State, KvsError>)
        ensures
            res == State::parse(n),
    {
        if n == 1 {
            Ok(State::Active)
        } else if n == 2 {
            Ok(State::Deleted)
        } else {
            Err(KvsError::InvalidState(n))
        }
    }
}

/// What a record says, apart from how it is held in memory.
pub struct Record {
    /// The checksum that the record carries, right or wrong.
    pub checksum: u32,
    /// Live record or tombstone.
    pub state: State,
    /// The key, as characters.
    pub key: Seq<char>,
    /// The value; empty in a tombstone.
    pub value: Seq<u8>,
}

/// Whether a key and a value are short enough for their length prefixes.
pub open spec fn record_fits(key: Seq<char>, value: Seq<u8>) -> bool {
    encode_utf8(key).len() <= MAX_KEY_BYTES && value.len() <= MAX_VALUE_BYTES
}

/// The error that refuses a key and a value that do not fit: the key is
/// judged first.
pub open spec fn fit_error(key: Seq<char>, value: Seq<u8>) -> KvsError {
    if encode_utf8(key).len() > MAX_KEY_BYTES {
        KvsError::MaxKeyBytes
    } else {
        KvsError::MaxValueBytes
    }
}

/// Everything of a record that its checksum covers: state byte, key length,
/// value length, key bytes, value bytes.
pub open spec fn record_payload(state: State, key: Seq<char>, value: Seq<u8>) -> Seq<u8> {
    seq![state.byte()] + be_bytes_u16(encode_utf8(key).len() as u16) + be_bytes_u32(
        value.len() as u32,
    ) + encode_utf8(key) + value
}

/// The record with the given contents and the checksum that belongs to them.
pub open spec fn sealed_record(state: State, key: Seq<char>, value: Seq<u8>) -> Record {
    Record { checksum: crc32(record_payload(state, key, value)), state, key, value }
}

impl Record {
    /// Whether the key and the value are short enough to be written.
    pub open spec fn fits(self) -> bool {
        record_fits(self.key, self.value)
    }

    /// The bytes that the checksum covers.
    pub open spec fn payload(self) -> Seq<u8> {
        record_payload(self.state, self.key, self.value)
    }

    /// The record as it stands in the log.
    pub open spec fn bytes(self) -> Seq<u8> {
        be_bytes_u32(self.checksum) + self.payload()
    }

    /// The length of the record in the log: `11 + key_len + value_len`.
    pub open spec fn len(self) -> nat {
        11 + encode_utf8(self.key).len() + self.value.len()
    }

    /// Whether the stored checksum is the checksum of the contents.
    pub open spec fn sealed(self) -> bool {
        self.checksum == crc32(self.payload())
    }

    /// The tombstone that deletes this record's key.
    pub open spec fn tombstone(self) -> Record {
        sealed_record(State::Deleted, self.key, Seq::empty())
    }
}

/// Reads the record that `b` begins with, without judging its checksum.
///
/// Bytes that end before the record does give the end-of-stream error; a
/// state byte other than 1 and 2 gives `InvalidState`, and is judged as soon
/// as it has been read; key bytes that are not UTF-8 give `InvalidKey`.
///
/// Proofs mostly go through `lemma_parse_of_bytes` and `lemma_bytes_of_parse`;
/// the cases below are revealed where they matter.
#[verifier::opaque]
pub open spec fn parse_record(b: Seq<u8>) -> Result<Record, KvsError> {
    if b.len() < 5 {
        Err(KvsError::eof())
    } else if State::parse(b[4]) is Err {
        Err(KvsError::InvalidState(b[4]))
    } else if b.len() < 11 {
        Err(KvsError::eof())
    } else {
        let key_end = 11 + be_value_u16(b.subrange(5, 7));
        let end = key_end + be_value_u32(b.subrange(7, 11));
        if b.len() < end {
            Err(KvsError::eof())
        } else if !valid_utf8(b.subrange(11, key_end)) {
            Err(KvsError::InvalidKey)
        } else {
            Ok(
                Record {
                    checksum: be_value_u32(b),
                    state: State::parse(b[4])->Ok_0,
                    key: decode_utf8(b.subrange(11, key_end)),
                    value: b.subrange(key_end, end),
                },
            )
        }
    }
}

/// Reads the record that `b` begins with and refuses it with `CorruptData`
/// unless its checksum is that of its contents.
pub open spec fn parse_record_checked(b: Seq<u8>) -> Result<Record, KvsError> {
    match parse_record(b) {
        Ok(r) => if r.sealed() {
            Ok(r)
        } else {
            Err(KvsError::CorruptData)
        },
        Err(e) => Err(e),
    }
}

/// A record that fits is read back from its own bytes, whatever follows them.
pub proof fn lemma_parse_of_bytes(r: Record, rest: Seq<u8>)
    requires
        r.fits(),
    ensures
        r.bytes().len() == r.len(),
        parse_record(r.bytes() + rest) == Ok::<Record, KvsError>(r),
{
    reveal(parse_record);
    let b = r.bytes() + rest;
    let kb = encode_utf8(r.key);
    let key_end = 11 + kb.len();
    let end = key_end + r.value.len();
    vstd::utf8::encode_utf8_valid_utf8(r.key);
    vstd::utf8::encode_utf8_decode_utf8(r.key);
    crate::wire::lemma_be_u16_value_of_bytes(kb.len() as u16);
    crate::wire::lemma_be_u32_value_of_bytes(r.value.len() as u32);
    crate::wire::lemma_be_u32_value_of_bytes(r.checksum);
    assert(b.subrange(5, 7) =~= be_bytes_u16(kb.len() as u16));
    assert(b.subrange(7, 11) =~= be_bytes_u32(r.value.len() as u32));
    assert(b.subrange(0, 4) =~= be_bytes_u32(r.checksum));
    assert(be_value_u32(b) == be_value_u32(b.subrange(0, 4)));
    assert(b.subrange(11, key_end as int) =~= kb);
    assert(b.subrange(key_end as int, end as int) =~= r.value);
    assert(b[4] == r.state.byte());
}

/// Bytes that read as a record begin with that record's bytes, and the record
/// fits.
pub proof fn lemma_bytes_of_parse(b: Seq<u8>)
    requires
        parse_record(b) is Ok,
    ensures
        parse_record(b)->Ok_0.fits(),
        parse_record(b)->Ok_0.len() <= b.len(),
        b.subrange(0, parse_record(b)->Ok_0.len() as int) == parse_record(b)->Ok_0.bytes(),
{
    reveal(parse_record);
    let r = parse_record(b)->Ok_0;
    let key_end = 11 + be_value_u16(b.subrange(5, 7));
    let end = key_end + be_value_u32(b.subrange(7, 11));
    let kb = b.subrange(11, key_end);
    vstd::utf8::decode_utf8_encode_utf8(kb);
    assert(encode_utf8(r.key) == kb);
    crate::wire::lemma_be_u16_bytes_of_value(b.subrange(5, 7));
    crate::wire::lemma_be_u32_bytes_of_value(b.subrange(7, 11));
    crate::wire::lemma_be_u32_bytes_of_value(b);
    assert(b.subrange(5, 7).subrange(0, 2) =~= b.subrange(5, 7));
    assert(b.subrange(7, 11).subrange(0, 4) =~= b.subrange(7, 11));
    assert(b.subrange(0, end) =~= r.bytes());
}

/// What a record reads as does not depend on the bytes that follow it.
pub proof fn lemma_parse_ignores_rest(b: Seq<u8>, rest: Seq<u8>)
    requires
        parse_record(b) is Ok,
    ensures
        parse_record(b + rest) == parse_record(b),
{
    let r = parse_record(b)->Ok_0;
    lemma_bytes_of_parse(b);
    let tail = b.subrange(r.len() as int, b.len() as int) + rest;
    lemma_parse_of_bytes(r, tail);
    assert(b + rest =~= r.bytes() + tail);
}

/// The fixed-width fields that precede the key of a record.
#[derive(Clone, Copy, Debug, PartialEq, Eq)]
pub struct Header {
    checksum: u32,
    state: State,
    key_len: u16,
    value_len: u32,
}

/// One record of the log, held in memory.
///
/// The lengths in the header always agree with the key and the value; the
/// checksum is whatever was computed or read, and may or may not match.
#[derive(Debug, PartialEq, Eq)]
pub struct Entry {
    header: Header,
    key: String,
    value: Vec<u8>,
}

impl View for Entry {
    type V = Record;

    closed spec fn view(&self) -> Record {
        Record {
            checksum: self.header.checksum,
            state: self.header.state,
            key: self.key@,
            value: self.value@,
        }
    }
}

impl Clone for Entry {
    fn clone(&self) -> (res: Entry)
        ensures
            res@ == self@,
    {
        proof {
            use_type_invariant(self);
        }
        let res = Entry { header: self.header, key: self.key.clone(), value: self.value.clone() };
        assert(res.value@ =~= self.value@);
        res
    }
}

/// Appends `src` to `out`.
fn append_bytes(out: &mut Vec<u8>, src: &[u8])
    ensures
        final(out)@ == old(out)@ + src@,
{
    out.extend_from_slice(src);
    assert(out@ =~= old(out)@ + src@);
}

impl Entry {
    #[verifier::type_invariant]
    spec fn lengths_agree(&self) -> bool {
        &&& self.header.key_len == encode_utf8(self.key@).len()
        &&& self.header.value_len == self.value@.len()
    }

    /// A live record for `key` and `value`, with its checksum.
    ///
    /// A key of more than 65535 bytes is refused with `MaxKeyBytes`, and
    /// otherwise a value of more than 4294967295 bytes with `MaxValueBytes`.
    pub fn new(key: &str, value: Vec<u8>) -> (res: Result<Entry, KvsError>)
        ensures
            match res {
                Ok(e) => record_fits(key@, value@) && e@ == sealed_record(
                    State::Active,
                    key@,
                    value@,
                ),
                Err(err) => !record_fits(key@, value@) && err == fit_error(key@, value@),
            },
    {
        Entry::new_with_state(key.to_owned(), value, State::Active)
    }

    fn new_with_state(key: String, value: Vec<u8>, state: State) -> (res: Result<Entry, KvsError>)
        ensures
            match res {
                Ok(e) => record_fits(key@, value@) && e@ == sealed_record(state, key@, value@),
                Err(err) => !record_fits(key@, value@) && err == fit_error(key@, value@),
            },
    {
        let key_len = key.as_str().as_bytes().len();
        if key_len > MAX_KEY_BYTES as usize {
            return Err(KvsError::MaxKeyBytes);
        }
        let value_len = value.len();
        if value_len > MAX_VALUE_BYTES as usize {
            return Err(KvsError::MaxValueBytes);
        }
        let header = Header {
            checksum: 0,
            state,
            key_len: key_len as u16,
            value_len: value_len as u32,
        };
        let mut e = Entry { header, key, value };
        let checksum = e.calc_checksum();
        e.header.checksum = checksum;
        Ok(e)
    }

    /// The tombstone for this record's key: deleted state, same key, no
    /// value, and the checksum that belongs to them.
    pub fn mark_delete(&self) -> (res: Result<Entry, KvsError>)
        ensures
            res matches Ok(t) && t@ == self@.tombstone() && t@.fits(),
    {
        proof {
            use_type_invariant(self);
        }
        Entry::new_with_state(self.key.clone(), Vec::new(), State::Deleted)
    }

    /// Whether this record is a tombstone.
    pub fn is_deleted(&self) -> (b: bool)
        ensures
            b == (self@.state == State::Deleted),
    {
        match self.header.state {
            State::Deleted => true,
            State::Active => false,
        }
    }

    /// The record's key.
    pub fn key(&self) -> (k: &str)
        ensures
            k@ == self@.key,
    {
        self.key.as_str()
    }

    /// The record's value; empty for a tombstone made by `mark_delete`.
    pub fn value(&self) -> (v: &Vec<u8>)
        ensures
            v@ == self@.value,
    {
        &self.value
    }

    /// Gives up the record for its key.
    pub fn into_key(self) -> (k: String)
        ensures
            k@ == self@.key,
    {
        self.key
    }

    /// Gives up the record for its value.
    pub fn into_value(self) -> (v: Vec<u8>)
        ensures
            v@ == self@.value,
    {
        self.value
    }

    /// The checksum that the record carries.
    pub fn checksum(&self) -> (sum: u32)
        ensures
            sum == self@.checksum,
    {
        self.header.checksum
    }

    /// The record's state.
    pub fn state(&self) -> (state: State)
        ensures
            state == self@.state,
    {
        self.header.state
    }

    /// Appends everything that the checksum covers to `out`.
    fn write_payload(&self, out: &mut Vec<u8>)
        ensures
            final(out)@ == old(out)@ + self@.payload(),
    {
        proof {
            use_type_invariant(self);
        }
        let key_len = write_u16_be(self.header.key_len);
        let value_len = write_u32_be(self.header.value_len);
        out.push(self.header.state.to_u8());
        out.push(key_len[0]);
        out.push(key_len[1]);
        out.push(value_len[0]);
        out.push(value_len[1]);
        out.push(value_len[2]);
        out.push(value_len[3]);
        append_bytes(out, self.key.as_str().as_bytes());
        append_bytes(out, self.value.as_slice());
        assert(out@ =~= old(out)@ + self@.payload());
    }

    /// Appends the record to `out` as it stands in the log and returns the
    /// number of bytes written, which is always the record's length.
    pub fn encode(&self, out: &mut Vec<u8>) -> (n: u64)
        ensures
            final(out)@ == old(out)@ + self@.bytes(),
            n == self@.len(),
            self@.fits(),
    {
        proof {
            use_type_invariant(self);
        }
        let checksum = write_u32_be(self.header.checksum);
        out.push(checksum[0]);
        out.push(checksum[1]);
        out.push(checksum[2]);
        out.push(checksum[3]);
        assert(out@ =~= old(out)@ + be_bytes_u32(self@.checksum));
        self.write_payload(out);
        assert(out@ =~= old(out)@ + self@.bytes());
        self.len()
    }

    /// Reads the record that `bytes` begins with and then judges its
    /// checksum: a mismatch is refused with `CorruptData`.
    pub fn decode_with_check(bytes: &[u8]) -> (res: Result<Entry, KvsError>)
        ensures
            match res {
                Ok(e) => parse_record_checked(bytes@) == Ok::<Record, KvsError>(e@),
                Err(err) => parse_record_checked(bytes@) == Err::<Record, KvsError>(err),
            },
    {
        match Entry::decode(bytes) {
            Ok(entry) => {
                if entry.header.checksum != entry.calc_checksum() {
                    Err(KvsError::CorruptData)
                } else {
                    Ok(entry)
                }
            },
            Err(err) => Err(err),
        }
    }

    /// Reads the record that `bytes` begins with, without judging its
    /// checksum. Bytes after the record are not looked at.
    pub fn decode(bytes: &[u8]) -> (res: Result<Entry, KvsError>)
        ensures
            match res {
                Ok(e) => parse_record(bytes@) == Ok::<Record, KvsError>(e@),
                Err(err) => parse_record(bytes@) == Err::<Record, KvsError>(err),
            },
    {
        proof {
            reveal(parse_record);
        }
        let n = bytes.len();
        if n < 5 {
            return Err(KvsError::Io { kind: IoErrorKind::UnexpectedEof });
        }
        let checksum = read_u32_be(bytes);
        let state = match State::try_from(bytes[4]) {
            Ok(state) => state,
            Err(err) => {
                return Err(err);
            },
        };
        if n < 11 {
            return Err(KvsError::Io { kind: IoErrorKind::UnexpectedEof });
        }
        let key_len = read_u16_be(slice_subrange(bytes, 5, 7));
        let value_len = read_u32_be(slice_subrange(bytes, 7, 11));
        let need: u64 = HEADER_LEN + key_len as u64 + value_len as u64;
        if (n as u64) < need {
            return Err(KvsError::Io { kind: IoErrorKind::UnexpectedEof });
        }
        let key_end: usize = 11 + key_len as usize;
        let end: usize = key_end + value_len as usize;
        let key_bytes = slice_to_vec(slice_subrange(bytes, 11, key_end));
        let key = match String::from_utf8(key_bytes) {
            Ok(key) => key,
            Err(_) => {
                return Err(KvsError::InvalidKey);
            },
        };
        let value = slice_to_vec(slice_subrange(bytes, key_end, end));
        proof {
            vstd::utf8::encode_utf8_decode_utf8(key@);
        }
        Ok(Entry { header: Header { checksum, state, key_len, value_len }, key, value })
    }

    /// The length of the record in the log: `11 + key_len + value_len`.
    pub fn len(&self) -> (n: u64)
        ensures
            n == self@.len(),
            self@.fits(),
    {
        proof {
            use_type_invariant(self);
        }
        HEADER_LEN + self.header.key_len as u64 + self.header.value_len as u64
    }

    /// The checksum of the record's contents: CRC-32 over state byte, key
    /// length, value length, key bytes and value bytes.
    fn calc_checksum(&self) -> (sum: u32)
        ensures
            sum == crc32(self@.payload()),
    {
        let mut buf: Vec<u8> = Vec::new();
        self.write_payload(&mut buf);
        assert(buf@ =~= self@.payload());
        crc32_of(buf.as_slice())
    }
}


} // verus!
