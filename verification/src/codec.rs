//! The record encoding of a credential set.
//!
//! A set is written as the number of its records and then the records in
//! order; a record is its name, login and secret; each text is the length of
//! its UTF-8 bytes and then the bytes. Every number is a `u64`, least
//! significant byte first. Explicit lengths leave no text that could be
//! mistaken for a delimiter.

use vstd::bytes::spec_u64_from_le_bytes;
use vstd::bytes::spec_u64_to_le_bytes;
use vstd::bytes::u64_from_le_bytes;
use vstd::bytes::u64_to_le_bytes;
use vstd::prelude::*;
use vstd::slice::slice_subrange;
use vstd::utf8::decode_utf8;
use vstd::utf8::encode_utf8;
use vstd::utf8::valid_utf8;

use crate::credentials::records_of;
use crate::credentials::records_ok;
use crate::credentials::AccountDetails;
use crate::credentials::CredentialSet;
use crate::credentials::Entry;
use crate::credentials::Record;
use crate::error::MalformedData;
use crate::text::same_text;
use crate::text::text_of;

verus! {

/// Number of bytes in a length or a count.
pub const LEN_BYTES: usize = 8;

/// The encoding of one text: the length of its UTF-8 bytes, then the bytes.
pub open spec fn field_bytes(text: Seq<char>) -> Seq<u8> {
    spec_u64_to_le_bytes(encode_utf8(text).len() as u64) + encode_utf8(text)
}

/// The encoding of one record: its name, its login and its secret.
pub open spec fn record_bytes(record: Record) -> Seq<u8> {
    field_bytes(record.name) + field_bytes(record.login) + field_bytes(record.secret)
}

/// The encodings of the records, one after another.
pub open spec fn records_bytes(records: Seq<Record>) -> Seq<u8>
    decreases records.len(),
{
    if records.len() == 0 {
        Seq::<u8>::empty()
    } else {
        records_bytes(records.drop_last()) + record_bytes(records.last())
    }
}

/// The encoding of a set: the number of records, then the records.
pub open spec fn encoding(records: Seq<Record>) -> Seq<u8> {
    spec_u64_to_le_bytes(records.len() as u64) + records_bytes(records)
}

/// Whether a text's byte length can be written down as a `u64`.
pub open spec fn text_fits(text: Seq<char>) -> bool {
    encode_utf8(text).len() <= u64::MAX
}

/// Whether the records can be written down: their number and the byte length
/// of every text fit a `u64`.
pub open spec fn encodable(records: Seq<Record>) -> bool {
    &&& records.len() <= u64::MAX
    &&& forall|i: int|
        0 <= i < records.len() ==> {
            &&& text_fits((#[trigger] records[i]).name)
            &&& text_fits(records[i].login)
            &&& text_fits(records[i].secret)
        }
}

/// Reads one text at `at`: the text and the place behind it, where the bytes
/// there hold a length, that many bytes follow, and those are UTF-8.
pub open spec fn parse_field(bytes: Seq<u8>, at: int) -> Option<(Seq<char>, int)> {
    if 0 <= at && at + LEN_BYTES <= bytes.len() {
        let len = spec_u64_from_le_bytes(bytes.subrange(at, at + LEN_BYTES)) as int;
        let end = at + LEN_BYTES + len;
        if end <= bytes.len() && valid_utf8(bytes.subrange(at + LEN_BYTES, end)) {
            Some((decode_utf8(bytes.subrange(at + LEN_BYTES, end)), end))
        } else {
            None
        }
    } else {
        None
    }
}

/// Reads one record at `at`: three texts in a row.
pub open spec fn parse_record(bytes: Seq<u8>, at: int) -> Option<(Record, int)> {
    match parse_field(bytes, at) {
        Some((name, after_name)) => match parse_field(bytes, after_name) {
            Some((login, after_login)) => match parse_field(bytes, after_login) {
                Some((secret, end)) => Some((Record { name, login, secret }, end)),
                None => None,
            },
            None => None,
        },
        None => None,
    }
}

/// Reads `count` records in a row, starting at `at`.
pub open spec fn parse_records(bytes: Seq<u8>, at: int, count: nat) -> Option<(Seq<Record>, int)>
    decreases count,
{
    if count == 0 {
        Some((Seq::<Record>::empty(), at))
    } else {
        match parse_records(bytes, at, (count - 1) as nat) {
            Some((front, middle)) => match parse_record(bytes, middle) {
                Some((record, end)) => Some((front.push(record), end)),
                None => None,
            },
            None => None,
        }
    }
}

/// The records that `bytes` encode: the bytes hold a count, exactly that many
/// records follow and use up the bytes, and the records form a valid set.
pub open spec fn decoding(bytes: Seq<u8>) -> Option<Seq<Record>> {
    if bytes.len() < LEN_BYTES {
        None
    } else {
        let count = spec_u64_from_le_bytes(bytes.subrange(0, LEN_BYTES as int)) as nat;
        match parse_records(bytes, LEN_BYTES as int, count) {
            Some((records, end)) => if end == bytes.len() && records_ok(records) {
                Some(records)
            } else {
                None
            },
            None => None,
        }
    }
}

/// A text's encoding is read back as the text, wherever it stands.
pub proof fn lemma_parse_field_of_bytes(bytes: Seq<u8>, at: int, text: Seq<char>)
    requires
        text_fits(text),
        0 <= at,
        at + field_bytes(text).len() <= bytes.len(),
        bytes.subrange(at, at + field_bytes(text).len()) == field_bytes(text),
    ensures
        parse_field(bytes, at) == Some((text, at + field_bytes(text).len())),
        field_bytes(text).len() == LEN_BYTES + encode_utf8(text).len(),
{
    vstd::bytes::lemma_auto_spec_u64_to_from_le_bytes();
    vstd::utf8::encode_utf8_valid_utf8(text);
    vstd::utf8::encode_utf8_decode_utf8(text);
    let body = encode_utf8(text);
    let head = spec_u64_to_le_bytes(body.len() as u64);
    let whole = field_bytes(text);
    assert(bytes.subrange(at, at + LEN_BYTES) =~= whole.subrange(0, LEN_BYTES as int));
    assert(whole.subrange(0, LEN_BYTES as int) =~= head);
    let end = at + LEN_BYTES + body.len();
    assert(bytes.subrange(at + LEN_BYTES, end) =~= whole.subrange(
        LEN_BYTES as int,
        whole.len() as int,
    ));
    assert(whole.subrange(LEN_BYTES as int, whole.len() as int) =~= body);
}

/// What was read as a text is that text's encoding.
pub proof fn lemma_bytes_of_parsed_field(bytes: Seq<u8>, at: int, text: Seq<char>, end: int)
    requires
        parse_field(bytes, at) == Some((text, end)),
    ensures
        at + LEN_BYTES <= end <= bytes.len(),
        text_fits(text),
        bytes.subrange(at, end) == field_bytes(text),
{
    vstd::bytes::lemma_auto_spec_u64_to_from_le_bytes();
    let head = bytes.subrange(at, at + LEN_BYTES);
    let body = bytes.subrange(at + LEN_BYTES, end);
    vstd::utf8::decode_utf8_encode_utf8(body);
    assert(spec_u64_to_le_bytes(spec_u64_from_le_bytes(head)) == head);
    assert(bytes.subrange(at, end) =~= head + body);
}

/// A record's encoding is read back as the record, wherever it stands.
pub proof fn lemma_parse_record_of_bytes(bytes: Seq<u8>, at: int, record: Record)
    requires
        text_fits(record.name),
        text_fits(record.login),
        text_fits(record.secret),
        0 <= at,
        at + record_bytes(record).len() <= bytes.len(),
        bytes.subrange(at, at + record_bytes(record).len()) == record_bytes(record),
    ensures
        parse_record(bytes, at) == Some((record, at + record_bytes(record).len())),
{
    let whole = record_bytes(record);
    let n = field_bytes(record.name).len() as int;
    let l = field_bytes(record.login).len() as int;
    let s = field_bytes(record.secret).len() as int;
    assert(bytes.subrange(at, at + n) =~= whole.subrange(0, n));
    assert(whole.subrange(0, n) =~= field_bytes(record.name));
    lemma_parse_field_of_bytes(bytes, at, record.name);
    assert(bytes.subrange(at + n, at + n + l) =~= whole.subrange(n, n + l));
    assert(whole.subrange(n, n + l) =~= field_bytes(record.login));
    lemma_parse_field_of_bytes(bytes, at + n, record.login);
    assert(bytes.subrange(at + n + l, at + n + l + s) =~= whole.subrange(n + l, n + l + s));
    assert(whole.subrange(n + l, n + l + s) =~= field_bytes(record.secret));
    lemma_parse_field_of_bytes(bytes, at + n + l, record.secret);
}

/// What was read as a record is that record's encoding.
pub proof fn lemma_bytes_of_parsed_record(bytes: Seq<u8>, at: int, record: Record, end: int)
    requires
        parse_record(bytes, at) == Some((record, end)),
    ensures
        at < end <= bytes.len(),
        text_fits(record.name),
        text_fits(record.login),
        text_fits(record.secret),
        bytes.subrange(at, end) == record_bytes(record),
{
    let (name, after_name) = parse_field(bytes, at).unwrap();
    let (login, after_login) = parse_field(bytes, after_name).unwrap();
    let (secret, after_secret) = parse_field(bytes, after_login).unwrap();
    lemma_bytes_of_parsed_field(bytes, at, name, after_name);
    lemma_bytes_of_parsed_field(bytes, after_name, login, after_login);
    lemma_bytes_of_parsed_field(bytes, after_login, secret, after_secret);
    assert(bytes.subrange(at, end) =~= bytes.subrange(at, after_name) + bytes.subrange(
        after_name,
        after_login,
    ) + bytes.subrange(after_login, end));
}

/// The encodings of records in a row are read back as those records.
pub proof fn lemma_parse_records_of_bytes(bytes: Seq<u8>, at: int, records: Seq<Record>)
    requires
        encodable(records),
        0 <= at,
        at + records_bytes(records).len() <= bytes.len(),
        bytes.subrange(at, at + records_bytes(records).len()) == records_bytes(records),
    ensures
        parse_records(bytes, at, records.len()) == Some(
            (records, at + records_bytes(records).len()),
        ),
    decreases records.len(),
{
    if records.len() > 0 {
        let front = records.drop_last();
        let last = records.last();
        let whole = records_bytes(records);
        let f = records_bytes(front).len() as int;
        let r = record_bytes(last).len() as int;
        assert(encodable(front)) by {
            assert forall|i: int| 0 <= i < front.len() implies {
                &&& text_fits((#[trigger] front[i]).name)
                &&& text_fits(front[i].login)
                &&& text_fits(front[i].secret)
            } by {
                assert(front[i] == records[i]);
            }
        }
        assert(bytes.subrange(at, at + f) =~= whole.subrange(0, f));
        assert(whole.subrange(0, f) =~= records_bytes(front));
        lemma_parse_records_of_bytes(bytes, at, front);
        assert(bytes.subrange(at + f, at + f + r) =~= whole.subrange(f, f + r));
        assert(whole.subrange(f, f + r) =~= record_bytes(last));
        lemma_parse_record_of_bytes(bytes, at + f, last);
        assert(front.push(last) =~= records);
    }
}

/// What was read as records in a row is those records' encodings.
pub proof fn lemma_bytes_of_parsed_records(
    bytes: Seq<u8>,
    at: int,
    count: nat,
    records: Seq<Record>,
    end: int,
)
    requires
        0 <= at <= bytes.len(),
        parse_records(bytes, at, count) == Some((records, end)),
    ensures
        records.len() == count,
        at <= end <= bytes.len(),
        count > 0 ==> at < end,
        forall|i: int|
            0 <= i < records.len() ==> {
                &&& text_fits((#[trigger] records[i]).name)
                &&& text_fits(records[i].login)
                &&& text_fits(records[i].secret)
            },
        bytes.subrange(at, end) == records_bytes(records),
    decreases count,
{
    if count == 0 {
        assert(bytes.subrange(at, end) =~= Seq::<u8>::empty());
    } else {
        let (front, middle) = parse_records(bytes, at, (count - 1) as nat).unwrap();
        let (record, _end) = parse_record(bytes, middle).unwrap();
        lemma_bytes_of_parsed_records(bytes, at, (count - 1) as nat, front, middle);
        lemma_bytes_of_parsed_record(bytes, middle, record, end);
        assert(records.drop_last() =~= front);
        assert(records.last() == record);
        assert(bytes.subrange(at, end) =~= bytes.subrange(at, middle) + bytes.subrange(
            middle,
            end,
        ));
        assert forall|i: int| 0 <= i < records.len() implies {
            &&& text_fits((#[trigger] records[i]).name)
            &&& text_fits(records[i].login)
            &&& text_fits(records[i].secret)
        } by {
            if i < front.len() {
                assert(records[i] == front[i]);
            }
        }
    }
}

/// Decoding undoes encoding: the encoding of a valid set of records decodes
/// to exactly those records.
pub proof fn lemma_decode_encode(records: Seq<Record>)
    requires
        records_ok(records),
        encodable(records),
    ensures
        decoding(encoding(records)) == Some(records),
{
    vstd::bytes::lemma_auto_spec_u64_to_from_le_bytes();
    let bytes = encoding(records);
    let head = spec_u64_to_le_bytes(records.len() as u64);
    assert(bytes.subrange(0, LEN_BYTES as int) =~= head);
    assert(bytes.subrange(LEN_BYTES as int, LEN_BYTES + records_bytes(records).len())
        =~= records_bytes(records));
    lemma_parse_records_of_bytes(bytes, LEN_BYTES as int, records);
}

/// Encoding undoes decoding: bytes that decode are the encoding of what they
/// decode to, and that is a valid set of records. So no two byte strings
/// decode to the same records.
pub proof fn lemma_encode_decode(bytes: Seq<u8>)
    requires
        decoding(bytes) is Some,
    ensures
        records_ok(decoding(bytes)->0),
        encodable(decoding(bytes)->0),
        encoding(decoding(bytes)->0) == bytes,
{
    vstd::bytes::lemma_auto_spec_u64_to_from_le_bytes();
    let head = bytes.subrange(0, LEN_BYTES as int);
    let count = spec_u64_from_le_bytes(head) as nat;
    let (records, end) = parse_records(bytes, LEN_BYTES as int, count).unwrap();
    lemma_bytes_of_parsed_records(bytes, LEN_BYTES as int, count, records, end);
    assert(spec_u64_to_le_bytes(spec_u64_from_le_bytes(head)) == head);
    assert(bytes =~= head + bytes.subrange(LEN_BYTES as int, end));
}

/// Where `count` records can be read in a row, so can any smaller number.
proof fn lemma_parse_fewer(bytes: Seq<u8>, at: int, fewer: nat, count: nat)
    requires
        fewer <= count,
        parse_records(bytes, at, count) is Some,
    ensures
        parse_records(bytes, at, fewer) is Some,
    decreases count,
{
    if fewer < count {
        lemma_parse_fewer(bytes, at, fewer, (count - 1) as nat);
    }
}

/// The encodings of the first `n + 1` records are those of the first `n`
/// followed by that of the next.
proof fn lemma_records_bytes_step(records: Seq<Record>, n: int)
    requires
        0 <= n < records.len(),
    ensures
        records_bytes(records.take(n + 1)) == records_bytes(records.take(n)) + record_bytes(
            records[n],
        ),
{
    assert(records.take(n + 1).drop_last() =~= records.take(n));
}

/// Appends the encoding of `text` to `out`.
fn put_field(out: &mut Vec<u8>, text: &str)
    ensures
        final(out)@ == old(out)@ + field_bytes(text@),
        text_fits(text@),
{
    let bytes = text.as_bytes();
    let head = u64_to_le_bytes(bytes.len() as u64);
    out.extend_from_slice(head.as_slice());
    out.extend_from_slice(bytes);
    assert(out@ =~= old(out)@ + field_bytes(text@));
}

/// Encodes a credential set. The result decodes to the same set.
pub fn encode(set: &CredentialSet) -> (bytes: Vec<u8>)
    ensures
        bytes@ == encoding(set.records()),
        decoding(bytes@) == Some(set.records()),
{
    let entries = set.list();
    let ghost records = set.records();
    let mut out = u64_to_le_bytes(entries.len() as u64);
    let mut i: usize = 0;
    assert(records.take(0) =~= Seq::<Record>::empty());
    while i < entries.len()
        invariant
            i <= entries@.len(),
            records == records_of(entries@),
            out@ == spec_u64_to_le_bytes(records.len() as u64) + records_bytes(
                records.take(i as int),
            ),
            forall|j: int|
                0 <= j < i ==> {
                    &&& text_fits((#[trigger] records[j]).name)
                    &&& text_fits(records[j].login)
                    &&& text_fits(records[j].secret)
                },
        decreases entries@.len() - i,
    {
        let ghost before = out@;
        let entry = &entries[i];
        put_field(&mut out, entry.name.as_str());
        put_field(&mut out, entry.details.login.as_str());
        put_field(&mut out, entry.details.secret.as_str());
        proof {
            lemma_records_bytes_step(records, i as int);
            assert(out@ =~= before + record_bytes(records[i as int]));
        }
        i += 1;
    }
    proof {
        assert(records.take(i as int) =~= records);
        lemma_decode_encode(records);
    }
    out
}

/// Reads one text at `at`.
fn take_field(bytes: &[u8], at: usize) -> (field: Option<(String, usize)>)
    requires
        at <= bytes@.len(),
    ensures
        match field {
            Some((text, end)) => parse_field(bytes@, at as int) == Some((text@, end as int)),
            None => parse_field(bytes@, at as int) is None,
        },
{
    if bytes.len() - at < LEN_BYTES {
        return None;
    }
    let len: u64 = u64_from_le_bytes(slice_subrange(bytes, at, at + LEN_BYTES));
    let room: usize = bytes.len() - at - LEN_BYTES;
    if len > room as u64 {
        return None;
    }
    let end: usize = at + LEN_BYTES + len as usize;
    match text_of(slice_subrange(bytes, at + LEN_BYTES, end)) {
        Some(text) => Some((text, end)),
        None => None,
    }
}

/// Reads one record at `at`.
fn take_record(bytes: &[u8], at: usize) -> (taken: Option<(Entry, usize)>)
    requires
        at <= bytes@.len(),
    ensures
        match taken {
            Some((entry, end)) => parse_record(bytes@, at as int) == Some((entry@, end as int)),
            None => parse_record(bytes@, at as int) is None,
        },
{
    let (name, after_name) = match take_field(bytes, at) {
        Some(field) => field,
        None => { return None; },
    };
    proof {
        lemma_bytes_of_parsed_field(bytes@, at as int, name@, after_name as int);
    }
    let (login, after_login) = match take_field(bytes, after_name) {
        Some(field) => field,
        None => { return None; },
    };
    proof {
        lemma_bytes_of_parsed_field(bytes@, after_name as int, login@, after_login as int);
    }
    let (secret, end) = match take_field(bytes, after_login) {
        Some(field) => field,
        None => { return None; },
    };
    Some((Entry { name, details: AccountDetails { login, secret } }, end))
}

/// Whether the entries form a valid set: every name non-empty, none twice.
fn names_ok(entries: &Vec<Entry>) -> (ok: bool)
    ensures
        ok == records_ok(records_of(entries@)),
{
    let ghost records = records_of(entries@);
    let mut i: usize = 0;
    while i < entries.len()
        invariant
            i <= entries@.len(),
            records == records_of(entries@),
            forall|a: int, b: int|
                0 <= a < b < i ==> (#[trigger] records[a]).name != (#[trigger] records[b]).name,
            forall|a: int| 0 <= a < i ==> (#[trigger] records[a]).name.len() > 0,
        decreases entries@.len() - i,
    {
        if entries[i].name.as_str().is_empty() {
            assert(records[i as int].name.len() == 0);
            return false;
        }
        let mut j: usize = 0;
        while j < i
            invariant
                j <= i < entries@.len(),
                records == records_of(entries@),
                forall|a: int|
                    0 <= a < j ==> (#[trigger] records[a]).name != records[i as int].name,
            decreases i - j,
        {
            if same_text(entries[j].name.as_str(), entries[i].name.as_str()) {
                assert(records[j as int].name == records[i as int].name);
                return false;
            }
            j += 1;
        }
        i += 1;
    }
    true
}

/// Decodes a credential set. Bytes that are cut short, hold anything but
/// well-formed records, repeat a name or leave one empty are refused.
pub fn decode(bytes: &[u8]) -> (decoded: Result<CredentialSet, MalformedData>)
    ensures
        match decoded {
            Ok(set) => decoding(bytes@) == Some(set.records()),
            Err(_) => decoding(bytes@) is None,
        },
{
    if bytes.len() < LEN_BYTES {
        return Err(MalformedData);
    }
    let count: u64 = u64_from_le_bytes(slice_subrange(bytes, 0, LEN_BYTES));
    let mut entries: Vec<Entry> = Vec::new();
    let mut at: usize = LEN_BYTES;
    let mut read: u64 = 0;
    assert(records_of(entries@) =~= Seq::<Record>::empty());
    while read < count
        invariant
            read <= count,
            LEN_BYTES <= at <= bytes@.len(),
            count == spec_u64_from_le_bytes(bytes@.subrange(0, LEN_BYTES as int)),
            parse_records(bytes@, LEN_BYTES as int, read as nat) == Some(
                (records_of(entries@), at as int),
            ),
        decreases count - read,
    {
        let ghost front = records_of(entries@);
        match take_record(bytes, at) {
            Some((entry, end)) => {
                proof {
                    lemma_bytes_of_parsed_record(bytes@, at as int, entry@, end as int);
                }
                entries.push(entry);
                assert(records_of(entries@) =~= front.push(entry@));
                at = end;
                read += 1;
            },
            None => {
                proof {
                    if parse_records(bytes@, LEN_BYTES as int, count as nat) is Some {
                        lemma_parse_fewer(
                            bytes@,
                            LEN_BYTES as int,
                            (read + 1) as nat,
                            count as nat,
                        );
                    }
                }
                return Err(MalformedData);
            },
        }
    }
    if at != bytes.len() || !names_ok(&entries) {
        return Err(MalformedData);
    }
    Ok(CredentialSet::from_entries(entries))
}

} // verus!
