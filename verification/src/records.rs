//! Delimited records: what the `csv` crate reads from bytes in memory.
use crate::text;
use vstd::prelude::*;
use vstd::utf8;

verus! {

/// A record of a delimited file.
pub struct Record {
    /// The bytes of its fields.
    pub fields: Seq<Seq<u8>>,
    /// The offset of the byte behind it: behind its `\n` or its `\r`, or at the end
    /// of the file. The `\n` of a `\r\n` belongs to what comes next.
    pub end: int,
}

/// All fields are valid UTF-8.
pub open spec fn is_text(fields: Seq<Seq<u8>>) -> bool {
    forall|i: int| 0 <= i < fields.len() ==> utf8::valid_utf8(#[trigger] fields[i])
}

/// The texts of fields that are valid UTF-8.
pub open spec fn field_texts(fields: Seq<Seq<u8>>) -> Seq<Seq<char>> {
    fields.map_values(|f: Seq<u8>| utf8::decode_utf8(f))
}

/// The fields of each record.
pub open spec fn all_fields(records: Seq<Record>) -> Seq<Seq<Seq<u8>>> {
    records.map_values(|r: Record| r.fields)
}

/// The records of a file: what `csv` reads from its bytes, the first record
/// among them, where rows may differ in length.
pub uninterp spec fn records_of(bytes: Seq<u8>, delimiter: u8) -> Seq<Record>;

/// The records lie one behind the other in `bytes`; none of them is without bytes.
pub open spec fn in_order(records: Seq<Record>, bytes: Seq<u8>) -> bool {
    &&& forall|i: int| 0 <= i < records.len() ==> 0 < #[trigger] records[i].end <= bytes.len()
    &&& forall|i: int, j: int|
        0 <= i < j < records.len() ==> #[trigger] records[i].end < #[trigger] records[j].end
}

/// The bytes from the line end of a record on, up to the end of a later record, hold
/// just the records that come behind the first one up to the later one.
pub open spec fn seekable(bytes: Seq<u8>, delimiter: u8, records: Seq<Record>) -> bool {
    forall|a: int, b: int|
        0 <= a < b < records.len() ==> all_fields(
            records_of(
                bytes.subrange(#[trigger] records[a].end - 1, #[trigger] records[b].end),
                delimiter,
            ),
        ) == all_fields(records).subrange(a + 1, b + 1)
}

/// The fields of valid UTF-8 are valid UTF-8, where the delimiter is ASCII.
pub open spec fn keeps_text(bytes: Seq<u8>, delimiter: u8, records: Seq<Record>) -> bool {
    utf8::valid_utf8(bytes) && delimiter < 0x80 ==> forall|i: int|
        0 <= i < records.len() ==> is_text(#[trigger] records[i].fields)
}

/// What a reader over bytes in memory is about to give.
pub struct ReaderState {
    /// Rows may differ in length.
    pub flexible: bool,
    /// The next record is still to be set aside as the header.
    pub header_due: bool,
    /// The records that were not read yet.
    pub pending: Seq<Record>,
    /// The offset of the byte behind what was read.
    pub position: int,
    /// The number of bytes that are read from.
    pub size: int,
}

/// The fields of the next record, or none at the end.
pub open spec fn next_fields(state: ReaderState) -> Seq<Seq<u8>> {
    if state.pending.len() == 0 {
        Seq::empty()
    } else {
        state.pending[0].fields
    }
}

/// The state of a reader behind its next record, or at the end.
pub open spec fn advanced(state: ReaderState) -> ReaderState {
    if state.pending.len() == 0 {
        ReaderState { position: state.size, header_due: false, ..state }
    } else {
        ReaderState {
            pending: state.pending.drop_first(),
            position: state.pending[0].end,
            header_due: false,
            ..state
        }
    }
}

/// `csv::Reader`, here always over bytes in memory.
#[verifier::external_type_specification]
#[verifier::external_body]
#[verifier::reject_recursive_types(R)]
pub struct ExReader<R>(csv::Reader<R>);

/// `csv::Error`.
#[verifier::external_type_specification]
#[verifier::external_body]
pub struct ExError(csv::Error);

/// What a `csv::Reader` over bytes in memory is about to give.
pub uninterp spec fn reader_state(reader: csv::Reader<&[u8]>) -> ReaderState;

/// `csv::ReaderBuilder` makes a reader that gives the records of `bytes` from
/// the first one on, and allows rows of different lengths. Each record takes at
/// least one byte, and ends where the next one begins; if there is a next one, its
/// last byte is a line end. Reading may start over at such a line end, which is
/// skipped: the bytes from there up to the end of a later record hold just the records
/// between. A byte order mark is dropped at the very start only, so none is dropped
/// behind a line end. Records are split and unquoted at ASCII bytes only, if the
/// delimiter is ASCII, so the fields of valid UTF-8 are valid UTF-8.
#[verifier::external_body]
pub(crate) fn open_reader<'a>(bytes: &'a [u8], delimiter: u8, has_headers: bool) -> (reader:
    csv::Reader<&'a [u8]>)
    ensures
        reader_state(reader) == (ReaderState {
            flexible: true,
            header_due: has_headers,
            pending: records_of(bytes@, delimiter),
            position: 0,
            size: bytes@.len() as int,
        }),
        in_order(reader_state(reader).pending, bytes@),
        seekable(bytes@, delimiter, reader_state(reader).pending),
        keeps_text(bytes@, delimiter, reader_state(reader).pending),
{
    csv::ReaderBuilder::new()
        .delimiter(delimiter)
        .has_headers(has_headers)
        .flexible(true)
        .from_reader(bytes)
}

/// `Reader::headers` reads the first record and sets it aside as the header. It
/// fails just where a field of it is not valid UTF-8. Without any record the
/// header is empty.
#[verifier::external_body]
pub(crate) fn read_headers(reader: &mut csv::Reader<&[u8]>) -> (headers: Result<
    Vec<String>,
    csv::Error,
>)
    requires
        reader_state(*old(reader)).flexible,
        reader_state(*old(reader)).header_due,
    ensures
        reader_state(*final(reader)) == advanced(reader_state(*old(reader))),
        headers is Ok <==> is_text(next_fields(reader_state(*old(reader)))),
        (headers matches Ok(h) ==> text::texts(h@) == field_texts(
            next_fields(reader_state(*old(reader))),
        )),
{
    Ok(reader.headers()?.iter().map(|h| h.to_string()).collect())
}

/// `Reader::position` gives the offset of the byte behind what was read.
#[verifier::external_body]
pub(crate) fn read_position(reader: &csv::Reader<&[u8]>) -> (offset: u64)
    ensures
        offset == reader_state(*reader).position,
{
    reader.position().byte()
}

/// The bytes of each field.
pub open spec fn field_bytes(fields: Seq<Vec<u8>>) -> Seq<Seq<u8>> {
    fields.map_values(|f: Vec<u8>| f@)
}

/// `Reader::read_byte_record` reads the next record, whatever its bytes are,
/// and tells the end of the file. From memory, with rows of any length, it
/// never fails.
#[verifier::external_body]
pub(crate) fn read_byte_record(reader: &mut csv::Reader<&[u8]>) -> (record: Result<
    Option<Vec<Vec<u8>>>,
    csv::Error,
>)
    requires
        reader_state(*old(reader)).flexible,
        !reader_state(*old(reader)).header_due,
    ensures
        reader_state(*final(reader)) == advanced(reader_state(*old(reader))),
        record is Ok,
        (record matches Ok(r) ==> (r is None <==> reader_state(*old(reader)).pending.len() == 0)),
        (record matches Ok(Some(fields)) ==> field_bytes(fields@) == next_fields(
            reader_state(*old(reader)),
        )),
{
    let mut record = csv::ByteRecord::new();
    let more = reader.read_byte_record(&mut record)?;
    Ok(more.then_some(record.iter().map(|field| field.to_vec()).collect()))
}

/// `Reader::read_record` reads the next record as text and tells the end of the
/// file. From memory, with rows of any length, it fails just where a field is
/// not valid UTF-8, and is then behind that record all the same.
#[verifier::external_body]
pub(crate) fn read_record(reader: &mut csv::Reader<&[u8]>) -> (record: Result<
    Option<Vec<String>>,
    csv::Error,
>)
    requires
        reader_state(*old(reader)).flexible,
        !reader_state(*old(reader)).header_due,
    ensures
        reader_state(*final(reader)) == advanced(reader_state(*old(reader))),
        record is Ok <==> is_text(next_fields(reader_state(*old(reader)))),
        (record matches Ok(r) ==> (r is None <==> reader_state(*old(reader)).pending.len() == 0)),
        (record matches Ok(Some(fields)) ==> text::texts(fields@) == field_texts(
            next_fields(reader_state(*old(reader))),
        )),
{
    let mut record = csv::StringRecord::new();
    let more = reader.read_record(&mut record)?;
    Ok(more.then_some(record.iter().map(|field| field.to_string()).collect()))
}

/// The rows that records hold: the texts of each record, without the records
/// that are not text. In valid UTF-8 with an ASCII delimiter all records are text.
pub open spec fn readable_rows(records: Seq<Record>) -> Seq<Seq<Seq<char>>>
    decreases records.len(),
{
    if records.len() == 0 {
        Seq::empty()
    } else {
        let rows = readable_rows(records.drop_last());
        if is_text(records.last().fields) {
            rows.push(field_texts(records.last().fields))
        } else {
            rows
        }
    }
}

/// The rows that the bytes of a window of records hold.
pub open spec fn window_rows(bytes: Seq<u8>, delimiter: u8) -> Seq<Seq<Seq<char>>> {
    readable_rows(records_of(bytes, delimiter))
}

/// The rows of a window.
pub(crate) fn read_window(bytes: &[u8], delimiter: u8) -> (rows: Vec<Vec<String>>)
    ensures
        text::grid(rows@) == window_rows(bytes@, delimiter),
{
    let mut reader = open_reader(bytes, delimiter, false);
    let ghost all = records_of(bytes@, delimiter);
    let mut rows: Vec<Vec<String>> = Vec::new();
    let ghost mut n: int = 0;
    proof {
        assert(all.skip(0) =~= all);
        assert(all.take(0) =~= Seq::<Record>::empty());
        assert(text::grid(rows@) =~= Seq::<Seq<Seq<char>>>::empty());
    }
    loop
        invariant_except_break
            0 <= n <= all.len(),
            reader_state(reader).flexible,
            !reader_state(reader).header_due,
            reader_state(reader).pending == all.skip(n),
            text::grid(rows@) == readable_rows(all.take(n)),
        ensures
            text::grid(rows@) == readable_rows(all),
        decreases all.len() - n,
    {
        let ghost state = reader_state(reader);
        let record = read_record(&mut reader);
        proof {
            if n < all.len() {
                assert(all.take(n + 1).drop_last() =~= all.take(n));
                assert(state.pending[0] == all[n]);
                assert(state.pending.drop_first() =~= all.skip(n + 1));
            } else {
                assert(all.take(n) =~= all);
            }
        }
        match record {
            Ok(None) => {
                break;
            },
            Ok(Some(row)) => {
                let ghost before = rows@;
                rows.push(row);
                proof {
                    assert(text::grid(rows@) =~= text::grid(before).push(text::texts(row@)));
                    n = n + 1;
                }
            },
            Err(_) => {
                proof {
                    n = n + 1;
                }
            },
        }
    }
    rows
}

/// Where every record is text, each gives a row.
pub proof fn lemma_readable_rows_of_text(records: Seq<Record>)
    requires
        forall|i: int| 0 <= i < records.len() ==> is_text(#[trigger] records[i].fields),
    ensures
        readable_rows(records) == records.map_values(|r: Record| field_texts(r.fields)),
    decreases records.len(),
{
    let rows = records.map_values(|r: Record| field_texts(r.fields));
    if records.len() == 0 {
        assert(rows =~= Seq::empty());
    } else {
        lemma_readable_rows_of_text(records.drop_last());
        assert(is_text(records[records.len() - 1].fields));
        assert(rows =~= records.drop_last().map_values(|r: Record| field_texts(r.fields)).push(
            field_texts(records.last().fields),
        ));
    }
}

} // verus!
