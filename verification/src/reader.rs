//! Windowed row access over a delimited file held in memory.
//!
//! The bytes of the file are parsed by the csv crate; what that parse yields
//! is named, not restated, and everything built on top of it — dropping the
//! header record, slicing a window of data rows out of the parse, reporting
//! end-of-data by a short window — is verified here.

use vstd::math::min;
use vstd::prelude::*;

verus! {

/// The records that the csv crate parses out of the longest parseable prefix
/// of the given bytes — every record of the stream when the whole stream
/// parses, and the records before the first failing one otherwise. Each
/// record is a sequence of fields; the first record is the header, and field
/// counts may differ from record to record. A function of the bytes alone.
pub uninterp spec fn csv_records(bytes: Seq<u8>) -> Seq<Seq<Seq<char>>>;

/// Whether the csv crate parses the given bytes to the end without error.
/// When it does not, the failing record's index is `csv_records(bytes).len()`,
/// the length of the parseable prefix.
pub uninterp spec fn csv_ok(bytes: Seq<u8>) -> bool;

/// The fields held by one parsed record, in order.
pub uninterp spec fn record_fields(r: csv::StringRecord) -> Seq<Seq<char>>;

#[verifier::external_type_specification]
#[verifier::external_body]
pub struct ExStringRecord(csv::StringRecord);

/// Relies on csv::StringRecord::iter: it yields the record's fields in order.
#[verifier::external_body]
pub fn string_record_to_vec(record: &csv::StringRecord) -> (r: Vec<String>)
    ensures
        r.deep_view() == record_fields(*record),
{
    let mut string_vec = Vec::new();
    for field in record.iter() {
        string_vec.push(String::from(field));
    }
    string_vec
}

/// Relies on csv::ReaderBuilder and csv::Reader::records: with header
/// handling off and flexible field counts on, the reader yields every record
/// of the byte stream in order, as parsed by the crate's quoting rules,
/// stopping at the first record it cannot parse. Returns the records before
/// that point — the longest parseable prefix — and whether a record failed.
#[verifier::external_body]
fn read_records(bytes: &Vec<u8>) -> (r: (Vec<csv::StringRecord>, bool))
    ensures
        r.1 == !csv_ok(bytes@),
        r.0@.len() == csv_records(bytes@).len(),
        forall|i: int| 0 <= i < r.0@.len() ==> record_fields(r.0@[i]) == csv_records(bytes@)[i],
{
    let mut rdr =
        csv::ReaderBuilder::new().has_headers(false).flexible(true).from_reader(bytes.as_slice());
    let mut out = Vec::new();
    for rec in rdr.records() {
        match rec {
            Ok(sr) => out.push(sr),
            Err(_) => return (out, true),
        }
    }
    (out, false)
}

/// Why a file could not be opened as a table.
#[derive(Debug, PartialEq, Eq, Structural, Clone, Copy)]
pub enum OpenError {
    /// No file exists at the given path.
    NotFound,
    /// The file exists but cannot be read, or its header record cannot be
    /// parsed.
    Unreadable,
    /// The file holds no header record.
    Empty,
}

/// Why a row query failed.
#[derive(Debug, PartialEq, Eq, Structural, Clone, Copy)]
pub enum ReadError {
    /// A record failed to parse; the payload is the zero-based data-row index
    /// at which the parse stopped.
    Malformed(u64),
}

/// The parsed data records of the file: every record of the parseable
/// prefix but the header.
pub open spec fn data_records(bytes: Seq<u8>) -> Seq<Seq<Seq<char>>> {
    if csv_records(bytes).len() == 0 {
        Seq::empty()
    } else {
        csv_records(bytes).skip(1)
    }
}

/// The slice of `data` that a query for `count` rows starting at row `start`
/// returns: it ends early at the end of the data, and a `start` past the end
/// gives an empty window.
pub open spec fn window_spec(data: Seq<Seq<Seq<char>>>, start: int, count: int) -> Seq<
    Seq<Seq<char>>,
> {
    let lo = min(start, data.len() as int);
    let hi = min(start + count, data.len() as int);
    if lo <= hi {
        data.subrange(lo, hi)
    } else {
        Seq::empty()
    }
}

/// The data-row index reported for a failed parse: the failing record's
/// index — the length of the parseable prefix — not counting the header
/// record.
pub open spec fn spec_err_data_row(bytes: Seq<u8>) -> u64 {
    if csv_records(bytes).len() > 0 {
        (csv_records(bytes).len() - 1) as u64
    } else {
        0
    }
}

/// Windowed access to one delimited file, held in memory as the bytes read at
/// open time. Every query re-parses the bytes from the start; no row index is
/// kept across queries.
pub struct CsvLensReader {
    pub content: Vec<u8>,
    pub headers: Vec<String>,
}

impl CsvLensReader {
    /// Opens the given bytes as a table: the first record becomes the
    /// header. Only that record needs to parse — a file whose later records
    /// are malformed still opens, and the failure surfaces from the row
    /// query whose scan reaches it.
    pub fn new(content: Vec<u8>) -> (r: Result<Self, OpenError>)
        ensures
            csv_records(content@).len() > 0 ==> (r matches Ok(rd) && rd.content@ == content@
                && rd.headers.deep_view() == csv_records(content@)[0]),
            csv_records(content@).len() == 0 && csv_ok(content@) ==> (r matches Err(e)
                && e == OpenError::Empty),
            csv_records(content@).len() == 0 && !csv_ok(content@) ==> (r matches Err(e)
                && e == OpenError::Unreadable),
    {
        let (recs, bad) = read_records(&content);
        if recs.len() > 0 {
            let headers = string_record_to_vec(&recs[0]);
            Ok(Self { content, headers })
        } else if bad {
            Err(OpenError::Unreadable)
        } else {
            Err(OpenError::Empty)
        }
    }

    /// Returns up to `num_rows` data records starting at zero-based data-row
    /// index `rows_from`; the header is never included, and a window that
    /// reaches the end of the data is short, not an error. The scan reads
    /// only up to `rows_from + num_rows` data records, so a record that
    /// fails to parse makes the call fail only when it lies within that
    /// range; beyond it, the window comes back whole. Never more than
    /// `num_rows` records come back.
    pub fn get_rows(&self, rows_from: u64, num_rows: u64) -> (r: Result<
        Vec<Vec<String>>,
        ReadError,
    >)
        ensures
            csv_ok(self.content@) || rows_from as int + num_rows as int <= data_records(
                self.content@,
            ).len() ==> r is Ok,
            r matches Ok(v) ==> v.deep_view() == window_spec(
                data_records(self.content@),
                rows_from as int,
                num_rows as int,
            ) && v@.len() <= num_rows,
            r matches Err(e) ==> !csv_ok(self.content@) && rows_from as int + num_rows as int
                > data_records(self.content@).len() && e == ReadError::Malformed(
                spec_err_data_row(self.content@),
            ),
    {
        let (recs, bad) = read_records(&self.content);
        let n: usize = recs.len();
        let data_len: u64 = if n > 0 {
            (n - 1) as u64
        } else {
            0
        };
        if bad && (rows_from > data_len || num_rows > data_len - rows_from) {
            Err(ReadError::Malformed(data_len))
        } else {
            {
                let lo: u64 = if rows_from < data_len {
                    rows_from
                } else {
                    data_len
                };
                let remaining: u64 = data_len - lo;
                let take: u64 = if num_rows < remaining {
                    num_rows
                } else {
                    remaining
                };
                let ghost data = data_records(self.content@);
                let mut res: Vec<Vec<String>> = Vec::new();
                let mut k: u64 = 0;
                while k < take
                    invariant
                        0 <= k <= take,
                        recs@.len() == csv_records(self.content@).len(),
                        forall|i: int|
                            0 <= i < recs@.len() ==> record_fields(recs@[i]) == csv_records(
                                self.content@,
                            )[i],
                        n == recs@.len(),
                        data == data_records(self.content@),
                        n > 0 ==> data_len == n - 1,
                        n == 0 ==> data_len == 0,
                        lo == min(rows_from as int, data_len as int),
                        lo + take == min(rows_from as int + num_rows as int, data_len as int),
                        take <= num_rows,
                        res@.len() == k,
                        forall|j: int| 0 <= j < k ==> res@[j].deep_view() == data[lo + j],
                    decreases take - k,
                {
                    let idx: usize = (lo + k + 1) as usize;
                    let row = string_record_to_vec(&recs[idx]);
                    proof {
                        assert(data == csv_records(self.content@).skip(1));
                        assert(data[lo + k] == csv_records(self.content@)[lo + k + 1]);
                    }
                    res.push(row);
                    k = k + 1;
                }
                proof {
                    let w = window_spec(data, rows_from as int, num_rows as int);
                    assert(w.len() == take);
                    assert forall|j: int| 0 <= j < take implies res.deep_view()[j] == w[j] by {
                        assert(res.deep_view()[j] == res@[j].deep_view());
                        assert(w[j] == data[lo + j]);
                    }
                    assert(res.deep_view() =~= w);
                }
                Ok(res)
            }
        }
    }
}

/// Scroll round trip, seen at the row window: after a downward then an
/// upward scroll step from any non-saturating offset, the offset — and with
/// it the window an unchanged file yields — is exactly what it was before.
pub proof fn lemma_scroll_round_trip_window(data: Seq<Seq<Seq<char>>>, r: u64, count: u64)
    requires
        0 < r < u64::MAX,
    ensures
        crate::viewport::spec_scroll_up_offset(crate::viewport::spec_scroll_down_offset(r)) == r,
        window_spec(
            data,
            crate::viewport::spec_scroll_up_offset(
                crate::viewport::spec_scroll_down_offset(r),
            ) as int,
            count as int,
        ) == window_spec(data, r as int, count as int),
{
}

/// Windowing consistency: on an unchanged file, asking for one fewer row one
/// row further down yields exactly the previous window with its first record
/// dropped; and past the end of the data both windows are empty.
pub proof fn lemma_windowing_consistency(data: Seq<Seq<Seq<char>>>, start: int, count: int)
    requires
        0 <= start,
        1 <= count,
    ensures
        window_spec(data, start, count).len() > 0 ==> window_spec(data, start + 1, count - 1)
            == window_spec(data, start, count).drop_first(),
        window_spec(data, start, count).len() == 0 ==> window_spec(data, start + 1, count - 1).len()
            == 0,
{
    let w = window_spec(data, start, count);
    if w.len() > 0 {
        assert(window_spec(data, start + 1, count - 1) =~= w.drop_first());
    }
}

} // verus!
