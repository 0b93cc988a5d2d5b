//! The records of data files and hint files, and their binary encoding.
//!
//! Records are encoded by `bincode` with fixed-width little-endian integers:
//! a `u64` or `i64` takes eight bytes, a byte string is its length as a `u64`
//! followed by its bytes, and an optional value is one byte, `0` or `1`,
//! followed by the value when the byte is `1`.

use vstd::bytes::{spec_u64_from_le_bytes, spec_u64_to_le_bytes, lemma_auto_spec_u64_to_from_le_bytes};
use vstd::prelude::*;

use crate::error::Error;

verus! {

/// A record of a data file: a value written for `key` at time `tstamp`, or,
/// when `value` is `None`, a tombstone that deletes `key`.
#[derive(Clone, Debug, PartialEq, Eq)]
pub struct DataFileEntry {
    pub tstamp: i64,
    pub key: Vec<u8>,
    pub value: Option<Vec<u8>>,
}

/// A record of a hint file: the position of one data-file record for `key`.
#[derive(Clone, Debug, PartialEq, Eq)]
pub struct HintFileEntry {
    pub tstamp: i64,
    pub len: u64,
    pub pos: u64,
    pub key: Vec<u8>,
}

/// A data-file record as a mathematical value.
pub struct DataRecord {
    pub tstamp: i64,
    pub key: Seq<u8>,
    pub value: Option<Seq<u8>>,
}

/// A hint-file record as a mathematical value.
pub struct HintRecord {
    pub tstamp: i64,
    pub len: u64,
    pub pos: u64,
    pub key: Seq<u8>,
}

impl View for DataFileEntry {
    type V = DataRecord;

    open spec fn view(&self) -> DataRecord {
        data_record(self.tstamp, self.key@, option_view(self.value))
    }
}

impl View for HintFileEntry {
    type V = HintRecord;

    open spec fn view(&self) -> HintRecord {
        hint_record(self.tstamp, self.len, self.pos, self.key@)
    }
}

/// The mathematical value of an optional byte string.
pub open spec fn option_view(v: Option<Vec<u8>>) -> Option<Seq<u8>> {
    match v {
        Some(b) => Some(b@),
        None => None,
    }
}

/// The data-file record with the given fields.
pub open spec fn data_record(tstamp: i64, key: Seq<u8>, value: Option<Seq<u8>>) -> DataRecord {
    DataRecord { tstamp, key, value }
}

/// The hint-file record with the given fields.
pub open spec fn hint_record(tstamp: i64, len: u64, pos: u64, key: Seq<u8>) -> HintRecord {
    HintRecord { tstamp, len, pos, key }
}

/// The encoding of a byte string: its length in eight bytes, then its bytes.
pub open spec fn encode_bytes(b: Seq<u8>) -> Seq<u8> {
    spec_u64_to_le_bytes(b.len() as u64) + b
}

/// The encoding of an optional byte string.
pub open spec fn encode_option(v: Option<Seq<u8>>) -> Seq<u8> {
    match v {
        None => seq![0u8],
        Some(b) => seq![1u8] + encode_bytes(b),
    }
}

/// The encoding of a data-file record.
pub open spec fn encode_data(r: DataRecord) -> Seq<u8> {
    spec_u64_to_le_bytes(r.tstamp as u64) + encode_bytes(r.key) + encode_option(r.value)
}

/// The encoding of a hint-file record.
pub open spec fn encode_hint(r: HintRecord) -> Seq<u8> {
    spec_u64_to_le_bytes(r.tstamp as u64) + spec_u64_to_le_bytes(r.len) + spec_u64_to_le_bytes(
        r.pos,
    ) + encode_bytes(r.key)
}

/// Reads the eight-byte integer that `s` begins with.
pub open spec fn decode_u64(s: Seq<u8>) -> Option<u64> {
    if s.len() < 8 {
        None
    } else {
        Some(spec_u64_from_le_bytes(s.subrange(0, 8)))
    }
}

/// Reads the byte string that `s` begins with, and says how many bytes of
/// `s` it took.
pub open spec fn decode_bytes(s: Seq<u8>) -> Option<(Seq<u8>, int)> {
    match decode_u64(s) {
        None => None,
        Some(n) => if s.len() - 8 < n {
            None
        } else {
            Some((s.subrange(8, 8 + n as int), 8 + n as int))
        },
    }
}

/// Reads the optional byte string that `s` begins with.
pub open spec fn decode_option(s: Seq<u8>) -> Option<(Option<Seq<u8>>, int)> {
    if s.len() < 1 {
        None
    } else if s[0] == 0 {
        Some((None, 1))
    } else if s[0] == 1 {
        match decode_bytes(s.skip(1)) {
            None => None,
            Some((b, n)) => Some((Some(b), 1 + n)),
        }
    } else {
        None
    }
}

/// Reads the data-file record that `s` begins with, and says how many bytes
/// of `s` it took. `None` when `s` does not begin with a whole record.
pub open spec fn decode_data(s: Seq<u8>) -> Option<(DataRecord, int)> {
    match decode_u64(s) {
        None => None,
        Some(t) => match decode_bytes(s.skip(8)) {
            None => None,
            Some((key, nk)) => match decode_option(s.skip(8 + nk)) {
                None => None,
                Some((value, nv)) => Some(
                    (DataRecord { tstamp: t as i64, key, value }, 8 + nk + nv),
                ),
            },
        },
    }
}

/// Reads the hint-file record that `s` begins with, and says how many bytes
/// of `s` it took. `None` when `s` does not begin with a whole record.
pub open spec fn decode_hint(s: Seq<u8>) -> Option<(HintRecord, int)> {
    match decode_u64(s) {
        None => None,
        Some(t) => match decode_u64(s.skip(8)) {
            None => None,
            Some(len) => match decode_u64(s.skip(16)) {
                None => None,
                Some(pos) => match decode_bytes(s.skip(24)) {
                    None => None,
                    Some((key, nk)) => Some(
                        (HintRecord { tstamp: t as i64, len, pos, key }, 24 + nk),
                    ),
                },
            },
        },
    }
}

/// The number of bytes that the encoding of a data-file record takes.
pub open spec fn data_len(r: DataRecord) -> int {
    17 + r.key.len() as int + match r.value {
        None => 0int,
        Some(v) => 8 + v.len() as int,
    }
}

/// The number of bytes that the encoding of a hint-file record takes.
pub open spec fn hint_len(r: HintRecord) -> int {
    32 + r.key.len() as int
}

/// A data-file record whose byte strings are short enough to carry their
/// length in eight bytes.
pub open spec fn data_encodable(r: DataRecord) -> bool {
    &&& r.key.len() <= u64::MAX
    &&& r.value matches Some(v) ==> v.len() <= u64::MAX
}

/// A hint-file record whose key is short enough to carry its length in eight
/// bytes.
pub open spec fn hint_encodable(r: HintRecord) -> bool {
    r.key.len() <= u64::MAX
}

/// An eight-byte integer is read back from the front of any sequence that
/// begins with its encoding.
pub proof fn lemma_decode_u64_prefix(x: u64, rest: Seq<u8>)
    ensures
        spec_u64_to_le_bytes(x).len() == 8,
        decode_u64(spec_u64_to_le_bytes(x) + rest) == Some(x),
        (spec_u64_to_le_bytes(x) + rest).skip(8) == rest,
{
    lemma_auto_spec_u64_to_from_le_bytes();
    let s = spec_u64_to_le_bytes(x) + rest;
    assert(s.subrange(0, 8) =~= spec_u64_to_le_bytes(x));
    assert(s.skip(8) =~= rest);
}

/// A byte string is read back from the front of any sequence that begins
/// with its encoding.
pub proof fn lemma_decode_bytes_prefix(b: Seq<u8>, rest: Seq<u8>)
    requires
        b.len() <= u64::MAX,
    ensures
        encode_bytes(b).len() == 8 + b.len(),
        decode_bytes(encode_bytes(b) + rest) == Some((b, 8 + b.len() as int)),
        (encode_bytes(b) + rest).skip(8 + b.len() as int) == rest,
{
    let n = b.len() as u64;
    let s = encode_bytes(b) + rest;
    lemma_decode_u64_prefix(n, b + rest);
    assert(s =~= spec_u64_to_le_bytes(n) + (b + rest));
    assert(s.subrange(8, 8 + n as int) =~= b);
    assert(s.skip(8 + b.len() as int) =~= rest);
}

/// An optional byte string is read back from the front of any sequence that
/// begins with its encoding.
pub proof fn lemma_decode_option_prefix(v: Option<Seq<u8>>, rest: Seq<u8>)
    requires
        v matches Some(b) ==> b.len() <= u64::MAX,
    ensures
        decode_option(encode_option(v) + rest) == Some((v, encode_option(v).len() as int)),
        encode_option(v).len() == match v {
            None => 1int,
            Some(b) => 9 + b.len() as int,
        },
{
    let s = encode_option(v) + rest;
    match v {
        None => {
            assert(s[0] == 0u8);
        },
        Some(b) => {
            lemma_decode_bytes_prefix(b, rest);
            assert(s[0] == 1u8);
            assert(s.skip(1) =~= encode_bytes(b) + rest);
        },
    }
}

/// Decoding inverts encoding: a data-file record is read back, with the
/// length of its encoding, from any sequence that begins with its encoding.
pub proof fn lemma_decode_data_prefix(r: DataRecord, rest: Seq<u8>)
    requires
        data_encodable(r),
    ensures
        encode_data(r).len() == data_len(r),
        decode_data(encode_data(r) + rest) == Some((r, data_len(r))),
{
    let t = r.tstamp;
    let s = encode_data(r) + rest;
    let tail = encode_option(r.value) + rest;
    lemma_decode_u64_prefix(t as u64, encode_bytes(r.key) + tail);
    lemma_decode_bytes_prefix(r.key, tail);
    lemma_decode_option_prefix(r.value, rest);
    assert(s =~= spec_u64_to_le_bytes(t as u64) + (encode_bytes(r.key) + tail));
    assert(s.skip(8) =~= encode_bytes(r.key) + tail);
    assert(s.skip(8 + (8 + r.key.len() as int)) =~= tail);
    assert((t as u64) as i64 == t) by (bit_vector);
}

/// Decoding inverts encoding: a hint-file record is read back, with the
/// length of its encoding, from any sequence that begins with its encoding.
pub proof fn lemma_decode_hint_prefix(r: HintRecord, rest: Seq<u8>)
    requires
        hint_encodable(r),
    ensures
        encode_hint(r).len() == hint_len(r),
        decode_hint(encode_hint(r) + rest) == Some((r, hint_len(r))),
{
    let t = r.tstamp;
    let s = encode_hint(r) + rest;
    let k = encode_bytes(r.key) + rest;
    let p = spec_u64_to_le_bytes(r.pos) + k;
    let l = spec_u64_to_le_bytes(r.len) + p;
    lemma_decode_u64_prefix(t as u64, l);
    lemma_decode_u64_prefix(r.len, p);
    lemma_decode_u64_prefix(r.pos, k);
    lemma_decode_bytes_prefix(r.key, rest);
    assert(s =~= spec_u64_to_le_bytes(t as u64) + l);
    assert(s.skip(8) =~= l);
    assert(s.skip(16) =~= p);
    assert(s.skip(24) =~= k);
    assert((t as u64) as i64 == t) by (bit_vector);
}

/// An eight-byte integer that was read from the front of `s` is what the
/// first eight bytes of `s` encode.
pub proof fn lemma_decode_u64_inverse(s: Seq<u8>)
    requires
        decode_u64(s) is Some,
    ensures
        s.len() >= 8,
        s.take(8) == spec_u64_to_le_bytes(decode_u64(s)->Some_0),
{
    lemma_auto_spec_u64_to_from_le_bytes();
    assert(s.take(8) =~= s.subrange(0, 8));
}

/// A byte string that was read from the front of `s` is what the bytes it
/// took encode.
pub proof fn lemma_decode_bytes_inverse(s: Seq<u8>)
    requires
        decode_bytes(s) is Some,
    ensures
        8 <= decode_bytes(s)->Some_0.1 <= s.len(),
        decode_bytes(s)->Some_0.1 == 8 + decode_bytes(s)->Some_0.0.len(),
        decode_bytes(s)->Some_0.0.len() <= u64::MAX,
        s.take(decode_bytes(s)->Some_0.1) == encode_bytes(decode_bytes(s)->Some_0.0),
{
    lemma_decode_u64_inverse(s);
    let (b, n) = decode_bytes(s)->Some_0;
    assert(s.take(n) =~= s.take(8) + b);
}

/// An optional byte string that was read from the front of `s` is what the
/// bytes it took encode.
pub proof fn lemma_decode_option_inverse(s: Seq<u8>)
    requires
        decode_option(s) is Some,
    ensures
        1 <= decode_option(s)->Some_0.1 <= s.len(),
        decode_option(s)->Some_0.0 matches Some(b) ==> b.len() <= u64::MAX,
        s.take(decode_option(s)->Some_0.1) == encode_option(decode_option(s)->Some_0.0),
{
    let (v, n) = decode_option(s)->Some_0;
    match v {
        None => {
            assert(s.take(1) =~= seq![0u8]);
        },
        Some(b) => {
            lemma_decode_bytes_inverse(s.skip(1));
            assert(s.take(n) =~= seq![1u8] + s.skip(1).take(n - 1));
        },
    }
}

/// Encoding inverts decoding: a data-file record that was read from the
/// front of `s` is what the bytes it took encode.
pub proof fn lemma_decode_data_inverse(s: Seq<u8>)
    requires
        decode_data(s) is Some,
    ensures
        data_encodable(decode_data(s)->Some_0.0),
        decode_data(s)->Some_0.1 == data_len(decode_data(s)->Some_0.0),
        decode_data(s)->Some_0.1 <= s.len(),
        s.take(decode_data(s)->Some_0.1) == encode_data(decode_data(s)->Some_0.0),
{
    let (r, n) = decode_data(s)->Some_0;
    let t = decode_u64(s)->Some_0;
    lemma_decode_u64_inverse(s);
    lemma_decode_bytes_inverse(s.skip(8));
    let nk = decode_bytes(s.skip(8))->Some_0.1;
    lemma_decode_option_inverse(s.skip(8 + nk));
    let nv = decode_option(s.skip(8 + nk))->Some_0.1;
    assert(((t as i64) as u64) == t) by (bit_vector);
    assert(s.take(n) =~= s.take(8) + s.skip(8).take(nk) + s.skip(8 + nk).take(nv));
}

/// Encoding inverts decoding: a hint-file record that was read from the
/// front of `s` is what the bytes it took encode.
pub proof fn lemma_decode_hint_inverse(s: Seq<u8>)
    requires
        decode_hint(s) is Some,
    ensures
        hint_encodable(decode_hint(s)->Some_0.0),
        decode_hint(s)->Some_0.1 == hint_len(decode_hint(s)->Some_0.0),
        decode_hint(s)->Some_0.1 <= s.len(),
        s.take(decode_hint(s)->Some_0.1) == encode_hint(decode_hint(s)->Some_0.0),
{
    let (r, n) = decode_hint(s)->Some_0;
    let t = decode_u64(s)->Some_0;
    lemma_decode_u64_inverse(s);
    lemma_decode_u64_inverse(s.skip(8));
    lemma_decode_u64_inverse(s.skip(16));
    lemma_decode_bytes_inverse(s.skip(24));
    let nk = decode_bytes(s.skip(24))->Some_0.1;
    assert(((t as i64) as u64) == t) by (bit_vector);
    assert(s.take(n) =~= s.take(8) + s.skip(8).take(8) + s.skip(16).take(8) + s.skip(24).take(
        nk,
    ));
}

/// What follows a record does not change how the record is read: a
/// data-file record that `s` begins with is read from `s + more` as well.
pub proof fn lemma_decode_data_extend(s: Seq<u8>, more: Seq<u8>)
    requires
        decode_data(s) is Some,
    ensures
        decode_data(s + more) == decode_data(s),
{
    lemma_decode_data_inverse(s);
    let (r, n) = decode_data(s)->Some_0;
    lemma_decode_data_prefix(r, s.skip(n) + more);
    assert(s + more =~= s.take(n) + (s.skip(n) + more));
}

/// What follows a record does not change how the record is read: a
/// hint-file record that `s` begins with is read from `s + more` as well.
pub proof fn lemma_decode_hint_extend(s: Seq<u8>, more: Seq<u8>)
    requires
        decode_hint(s) is Some,
    ensures
        decode_hint(s + more) == decode_hint(s),
{
    lemma_decode_hint_inverse(s);
    let (r, n) = decode_hint(s)->Some_0;
    lemma_decode_hint_prefix(r, s.skip(n) + more);
    assert(s + more =~= s.take(n) + (s.skip(n) + more));
}

/// What a successful decoding of a data-file record says of its length: it
/// is the length of the record's encoding and no more than the input holds.
pub proof fn lemma_decode_data_len(s: Seq<u8>)
    requires
        decode_data(s) is Some,
    ensures
        decode_data(s)->Some_0.1 == data_len(decode_data(s)->Some_0.0),
        data_len(decode_data(s)->Some_0.0) <= s.len(),
        data_encodable(decode_data(s)->Some_0.0),
{
}

/// What a successful decoding of a hint-file record says of its length.
pub proof fn lemma_decode_hint_len(s: Seq<u8>)
    requires
        decode_hint(s) is Some,
    ensures
        decode_hint(s)->Some_0.1 == hint_len(decode_hint(s)->Some_0.0),
        hint_len(decode_hint(s)->Some_0.0) <= s.len(),
        hint_encodable(decode_hint(s)->Some_0.0),
{
}

/// Calls `bincode::serialize` on the three fields of a data-file record.
///
/// The contract claims that the call succeeds and returns the fields in
/// order: the timestamp in eight little-endian bytes, the key with its
/// eight-byte length before it, and the value as one byte, 0 or 1, followed
/// in the second case by the value with its length before it. `bincode` fails
/// only on a size limit, which this call does not set, on a sequence of
/// unknown length, or when its writer fails, and it writes to a `Vec`.
#[verifier::external_body]
fn bincode_serialize_data(
    tstamp: i64,
    key: &Vec<u8>,
    value: &Option<Vec<u8>>,
) -> (r: Result<Vec<u8>, bincode::Error>)
    ensures
        r is Ok,
        r->Ok_0@ == encode_data(data_record(tstamp, key@, option_view(*value))),
{
    bincode::serialize(&(tstamp, key, value))
}

/// Calls `bincode::serialize` on the four fields of a hint-file record.
///
/// The contract claims that the call succeeds and returns the fields in
/// order: the timestamp, the length and the position in eight little-endian
/// bytes each, then the key with its eight-byte length before it.
#[verifier::external_body]
fn bincode_serialize_hint(
    tstamp: i64,
    len: u64,
    pos: u64,
    key: &Vec<u8>,
) -> (r: Result<Vec<u8>, bincode::Error>)
    ensures
        r is Ok,
        r->Ok_0@ == encode_hint(hint_record(tstamp, len, pos, key@)),
{
    bincode::serialize(&(tstamp, len, pos, key))
}

/// Calls `bincode::deserialize` for the three fields of a data-file record.
///
/// The contract claims that the call succeeds exactly when `bytes` begins
/// with a whole record, whatever follows it, and that it then returns that
/// record's fields. `bincode` reads the fields in order, fails when the
/// input ends inside one or when the byte before the value is neither 0 nor
/// 1, and ignores what follows the record.
#[verifier::external_body]
fn bincode_deserialize_data(
    bytes: &[u8],
) -> (r: Result<(i64, Vec<u8>, Option<Vec<u8>>), bincode::Error>)
    ensures
        r is Ok <==> decode_data(bytes@) is Some,
        r is Ok ==> decode_data(bytes@)->Some_0.0 == data_record(
            r->Ok_0.0,
            r->Ok_0.1@,
            option_view(r->Ok_0.2),
        ),
{
    bincode::deserialize(bytes)
}

/// Calls `bincode::deserialize` for the four fields of a hint-file record.
///
/// The contract claims that the call succeeds exactly when `bytes` begins
/// with a whole record, whatever follows it, and that it then returns that
/// record's fields.
#[verifier::external_body]
fn bincode_deserialize_hint(bytes: &[u8]) -> (r: Result<(i64, u64, u64, Vec<u8>), bincode::Error>)
    ensures
        r is Ok <==> decode_hint(bytes@) is Some,
        r is Ok ==> decode_hint(bytes@)->Some_0.0 == hint_record(
            r->Ok_0.0,
            r->Ok_0.1,
            r->Ok_0.2,
            r->Ok_0.3@,
        ),
{
    bincode::deserialize(bytes)
}

impl DataFileEntry {
    /// The number of bytes that the encoding of this record takes, or
    /// `None` where that number leaves the range of `u64`.
    pub fn encoded_len(&self) -> (n: Option<u64>)
        ensures
            n == if data_len(self@) <= u64::MAX {
                Some(data_len(self@) as u64)
            } else {
                None
            },
    {
        let with_key = match (self.key.len() as u64).checked_add(17) {
            Some(n) => n,
            None => {
                return None;
            },
        };
        match &self.value {
            None => Some(with_key),
            Some(v) => match with_key.checked_add(8) {
                Some(n) => n.checked_add(v.len() as u64),
                None => None,
            },
        }
    }

    /// Reads the record that `bytes` begins with and says how many bytes it
    /// takes. What follows the record is ignored.
    pub fn decode(bytes: &[u8]) -> (r: Result<(DataFileEntry, usize), Error>)
        ensures
            match r {
                Ok((entry, n)) => decode_data(bytes@) == Some((entry@, n as int)),
                Err(Error::Serialization(_)) => decode_data(bytes@) is None,
                Err(_) => false,
            },
    {
        let total: usize = bytes.len();
        match bincode_deserialize_data(bytes) {
            Ok((tstamp, key, value)) => {
                proof {
                    lemma_decode_data_len(bytes@);
                    let rec = data_record(tstamp, key@, option_view(value));
                    assert(decode_data(bytes@)->Some_0.0 == rec);
                    assert(data_len(rec) <= total);
                }
                let n: usize = match &value {
                    None => 17 + key.len(),
                    Some(v) => 17 + key.len() + 8 + v.len(),
                };
                Ok((DataFileEntry { tstamp, key, value }, n))
            },
            Err(e) => Err(Error::Serialization(e)),
        }
    }

    /// The bytes that stand for this record in a data file.
    pub fn encode(&self) -> (r: Result<Vec<u8>, Error>)
        ensures
            r matches Ok(bytes) && bytes@ == encode_data(self@),
    {
        match bincode_serialize_data(self.tstamp, &self.key, &self.value) {
            Ok(bytes) => Ok(bytes),
            Err(e) => Err(Error::Serialization(e)),
        }
    }
}

impl HintFileEntry {
    /// The bytes that stand for this record in a hint file.
    pub fn encode(&self) -> (r: Result<Vec<u8>, Error>)
        ensures
            r matches Ok(bytes) && bytes@ == encode_hint(self@),
    {
        match bincode_serialize_hint(self.tstamp, self.len, self.pos, &self.key) {
            Ok(bytes) => Ok(bytes),
            Err(e) => Err(Error::Serialization(e)),
        }
    }

    /// Reads the record that `bytes` begins with and says how many bytes it
    /// takes. What follows the record is ignored.
    pub fn decode(bytes: &[u8]) -> (r: Result<(HintFileEntry, usize), Error>)
        ensures
            match r {
                Ok((entry, n)) => decode_hint(bytes@) == Some((entry@, n as int)),
                Err(Error::Serialization(_)) => decode_hint(bytes@) is None,
                Err(_) => false,
            },
    {
        let total: usize = bytes.len();
        match bincode_deserialize_hint(bytes) {
            Ok((tstamp, len, pos, key)) => {
                proof {
                    lemma_decode_hint_len(bytes@);
                    let rec = hint_record(tstamp, len, pos, key@);
                    assert(decode_hint(bytes@)->Some_0.0 == rec);
                    assert(hint_len(rec) <= total);
                }
                let n: usize = 32 + key.len();
                Ok((HintFileEntry { tstamp, len, pos, key }, n))
            },
            Err(e) => Err(Error::Serialization(e)),
        }
    }
}

} // verus!
