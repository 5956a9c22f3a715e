//! The binary layout of the row image.
//!
//! A row is its fields' bytes joined by an eight-byte field delimiter and
//! closed by an eight-byte row delimiter.  There are no length prefixes: a
//! reader finds the boundaries by looking, after every byte, at the last
//! eight bytes of the field it is reading.

use vstd::prelude::*;
use vstd::slice::{slice_subrange, slice_to_vec};

verus! {

/// Length of either delimiter.
pub const DELIMITER_SIZE: usize = 8;

/// The bytes between two fields of a row: `FF 00 FF 00 FF 00 FF 00`.
pub open spec fn field_delimiter() -> Seq<u8> {
    seq![255u8, 0u8, 255u8, 0u8, 255u8, 0u8, 255u8, 0u8]
}

/// The bytes that close a row: `00 7F 00 FF 00 7F 00 FF`.
pub open spec fn row_delimiter() -> Seq<u8> {
    seq![0u8, 127u8, 0u8, 255u8, 0u8, 127u8, 0u8, 255u8]
}

/// The eight bytes of `image` that end at offset `at`.
pub open spec fn window(image: Seq<u8>, at: int) -> Seq<u8> {
    image.subrange(at - 8, at)
}

/// A row's fields as they are written: each but the last followed by the
/// field delimiter.  `upto` counts the fields taken.
pub open spec fn joined(fields: Seq<Seq<u8>>, upto: int) -> Seq<u8>
    decreases upto,
{
    if upto <= 0 {
        Seq::empty()
    } else if upto < fields.len() {
        joined(fields, upto - 1) + fields[upto - 1] + field_delimiter()
    } else {
        joined(fields, upto - 1) + fields[upto - 1]
    }
}

/// The bytes of one stored row.
pub open spec fn frame(fields: Seq<Seq<u8>>) -> Seq<u8> {
    joined(fields, fields.len() as int) + row_delimiter()
}

/// What a reader finds when it reads one row.
pub struct RowScan {
    /// The fields, in the order they were met.
    pub fields: Seq<Seq<u8>>,
    /// The offset just past the last byte read.
    pub end: int,
    /// Whether the row delimiter was met before the image ended.
    pub closed: bool,
}

/// Reads one row byte by byte.  The field being read began at `from`; the
/// bytes before `at` have been read.  After each byte the last eight bytes
/// of the field are compared with both delimiters: the field delimiter ends
/// the field, the row delimiter ends the field and the row.  Bytes left
/// over when the image ends belong to no field.
pub open spec fn scan_row(image: Seq<u8>, from: int, at: int) -> RowScan
    decreases image.len() - at,
{
    if at >= image.len() {
        RowScan { fields: Seq::empty(), end: image.len() as int, closed: false }
    } else {
        let next = at + 1;
        if next - from >= 8 && window(image, next) == row_delimiter() {
            RowScan { fields: seq![image.subrange(from, next - 8)], end: next, closed: true }
        } else if next - from >= 8 && window(image, next) == field_delimiter() {
            let rest = scan_row(image, next, next);
            RowScan {
                fields: seq![image.subrange(from, next - 8)] + rest.fields,
                end: rest.end,
                closed: rest.closed,
            }
        } else {
            scan_row(image, from, next)
        }
    }
}

/// `fields` can be stored: a reader of their frame finds exactly them.
pub open spec fn frames_cleanly(fields: Seq<Seq<u8>>) -> bool {
    scan_row(frame(fields), 0, 0) == (RowScan {
        fields,
        end: frame(fields).len() as int,
        closed: true,
    })
}

/// The fields can be stored as a row of the given arity: there are as many
/// as the arity asks, and a reader of their frame finds exactly them.
pub open spec fn storable(fields: Seq<Seq<u8>>, arity: nat) -> bool {
    fields.len() == arity && frames_cleanly(fields)
}

/// A read may start at `pos`: at the start of the image, at its end, or
/// just behind a row delimiter.
pub open spec fn on_boundary(image: Seq<u8>, pos: int) -> bool {
    ||| pos == 0
    ||| pos == image.len()
    ||| (8 <= pos <= image.len() && window(image, pos) == row_delimiter())
}

/// The outcome of reading a row of `arity` fields at `pos`.
pub enum ReadResult {
    /// `pos` is the end of the image.
    End,
    /// `pos` is no boundary, or the row there has another number of fields.
    Corrupt,
    /// A row, and the offset just past it.
    Row { fields: Seq<Seq<u8>>, end: int },
}

pub open spec fn read_at(image: Seq<u8>, pos: int, arity: nat) -> ReadResult {
    if pos == image.len() {
        ReadResult::End
    } else if !on_boundary(image, pos) {
        ReadResult::Corrupt
    } else {
        let scan = scan_row(image, pos, pos);
        if scan.fields.len() == arity {
            ReadResult::Row { fields: scan.fields, end: scan.end }
        } else {
            ReadResult::Corrupt
        }
    }
}

/// A row as it lies in the image: its fields and its span of bytes.
pub struct StoredRow {
    pub fields: Seq<Seq<u8>>,
    pub begin: int,
    pub end: int,
}

/// The outcome of reading row after row up to the end of the image.
pub struct Parse {
    /// The rows read, in the order they lie in the image.
    pub rows: Seq<StoredRow>,
    /// Whether the end was reached without meeting a corrupt row.
    pub clean: bool,
    /// Whether every row read was closed by a row delimiter.
    pub sealed: bool,
}

pub open spec fn parse_from(image: Seq<u8>, pos: int, arity: nat) -> Parse
    decreases image.len() - pos,
{
    match read_at(image, pos, arity) {
        ReadResult::End => Parse { rows: Seq::empty(), clean: true, sealed: true },
        ReadResult::Corrupt => Parse { rows: Seq::empty(), clean: false, sealed: true },
        ReadResult::Row { fields, end } => {
            if pos < end <= image.len() {
                let rest = parse_from(image, end, arity);
                Parse {
                    rows: seq![StoredRow { fields, begin: pos, end }] + rest.rows,
                    clean: rest.clean,
                    sealed: rest.sealed && scan_row(image, pos, pos).closed,
                }
            } else {
                Parse { rows: Seq::empty(), clean: false, sealed: true }
            }
        },
    }
}

/// Every row of the image, read from its start.
pub open spec fn parse(image: Seq<u8>, arity: nat) -> Parse {
    parse_from(image, 0, arity)
}

/// The primary key of a stored row: the integer in its first field.
pub open spec fn row_id(fields: Seq<Seq<u8>>) -> i32 {
    crate::datatypes::int_of(fields[0])
}

/// A read that starts before the end of the image reads at least one byte
/// and never past the end; a closed row ends in the row delimiter.
pub proof fn lemma_scan_bounds(image: Seq<u8>, from: int, at: int)
    requires
        0 <= from <= at <= image.len(),
    ensures
        at <= scan_row(image, from, at).end <= image.len(),
        at < image.len() ==> at < scan_row(image, from, at).end,
        !scan_row(image, from, at).closed ==> scan_row(image, from, at).end == image.len(),
        scan_row(image, from, at).closed ==> {
            &&& from + 8 <= scan_row(image, from, at).end
            &&& window(image, scan_row(image, from, at).end) == row_delimiter()
            &&& scan_row(image, from, at).fields.len() >= 1
        },
    decreases image.len() - at,
{
    if at < image.len() {
        let next = at + 1;
        if next - from >= 8 && window(image, next) == row_delimiter() {
        } else if next - from >= 8 && window(image, next) == field_delimiter() {
            lemma_scan_bounds(image, next, next);
        } else {
            lemma_scan_bounds(image, from, next);
        }
    }
}

/// A closed row is read the same in every image that has the same bytes up
/// to the row's end.
pub proof fn lemma_scan_agree(x: Seq<u8>, y: Seq<u8>, from: int, at: int)
    requires
        0 <= from <= at <= x.len(),
        scan_row(x, from, at).closed,
        scan_row(x, from, at).end <= y.len(),
        forall|i: int| 0 <= i < scan_row(x, from, at).end ==> x[i] == y[i],
    ensures
        scan_row(y, from, at) == scan_row(x, from, at),
    decreases x.len() - at,
{
    lemma_scan_bounds(x, from, at);
    if at < x.len() {
        let next = at + 1;
        if next - from >= 8 {
            assert(window(x, next) =~= window(y, next));
        }
        if next - from >= 8 && window(x, next) == row_delimiter() {
            assert(x.subrange(from, next - 8) =~= y.subrange(from, next - 8));
        } else if next - from >= 8 && window(x, next) == field_delimiter() {
            lemma_scan_bounds(x, next, next);
            lemma_scan_agree(x, y, next, next);
            assert(x.subrange(from, next - 8) =~= y.subrange(from, next - 8));
        } else {
            lemma_scan_bounds(x, from, next);
            lemma_scan_agree(x, y, from, next);
        }
    }
}

/// Reading behind a prefix finds what reading without the prefix finds,
/// moved by the length of the prefix.
pub proof fn lemma_scan_shift(a: Seq<u8>, b: Seq<u8>, from: int, at: int)
    requires
        0 <= from <= at <= b.len(),
    ensures
        scan_row(a + b, a.len() + from, a.len() + at) == (RowScan {
            fields: scan_row(b, from, at).fields,
            end: scan_row(b, from, at).end + a.len(),
            closed: scan_row(b, from, at).closed,
        }),
    decreases b.len() - at,
{
    let ab = a + b;
    let n = a.len() as int;
    if at < b.len() {
        let next = at + 1;
        if next - from >= 8 {
            assert(window(ab, n + next) =~= window(b, next));
        }
        if next - from >= 8 {
            assert(ab.subrange(n + from, n + next - 8) =~= b.subrange(from, next - 8));
        }
        if next - from >= 8 && window(b, next) == row_delimiter() {
        } else if next - from >= 8 && window(b, next) == field_delimiter() {
            lemma_scan_shift(a, b, next, next);
        } else {
            lemma_scan_shift(a, b, from, next);
        }
    }
}

/// Whether the eight bytes that end at `at` are the row delimiter.
pub fn ends_row(image: &[u8], at: usize) -> (r: bool)
    requires
        8 <= at <= image@.len(),
    ensures
        r == (window(image@, at as int) == row_delimiter()),
{
    let b = at - DELIMITER_SIZE;
    let r = image[b] == 0 && image[b + 1] == 127 && image[b + 2] == 0 && image[b + 3] == 255
        && image[b + 4] == 0 && image[b + 5] == 127 && image[b + 6] == 0 && image[b + 7] == 255;
    proof {
        let w = window(image@, at as int);
        let d = row_delimiter();
        assert(w.len() == 8 && d.len() == 8);
        assert(forall|i: int| 0 <= i < 8 ==> w[i] == image@[b + i]);
        assert(d[0] == 0 && d[1] == 127 && d[2] == 0 && d[3] == 255 && d[4] == 0 && d[5] == 127
            && d[6] == 0 && d[7] == 255);
        if r {
            assert(w =~= d);
        } else {
            assert(w[0] != d[0] || w[1] != d[1] || w[2] != d[2] || w[3] != d[3] || w[4] != d[4]
                || w[5] != d[5] || w[6] != d[6] || w[7] != d[7]);
        }
    }
    r
}

/// Whether the eight bytes that end at `at` are the field delimiter.
pub fn ends_field(image: &[u8], at: usize) -> (r: bool)
    requires
        8 <= at <= image@.len(),
    ensures
        r == (window(image@, at as int) == field_delimiter()),
{
    let b = at - DELIMITER_SIZE;
    let r = image[b] == 255 && image[b + 1] == 0 && image[b + 2] == 255 && image[b + 3] == 0
        && image[b + 4] == 255 && image[b + 5] == 0 && image[b + 6] == 255 && image[b + 7] == 0;
    proof {
        let w = window(image@, at as int);
        let d = field_delimiter();
        assert(w.len() == 8 && d.len() == 8);
        assert(forall|i: int| 0 <= i < 8 ==> w[i] == image@[b + i]);
        assert(d[0] == 255 && d[1] == 0 && d[2] == 255 && d[3] == 0 && d[4] == 255 && d[5] == 0
            && d[6] == 255 && d[7] == 0);
        if r {
            assert(w =~= d);
        } else {
            assert(w[0] != d[0] || w[1] != d[1] || w[2] != d[2] || w[3] != d[3] || w[4] != d[4]
                || w[5] != d[5] || w[6] != d[6] || w[7] != d[7]);
        }
    }
    r
}

/// Whether a read may start at `pos`.
pub fn is_boundary(image: &[u8], pos: u64) -> (r: bool)
    ensures
        r == on_boundary(image@, pos as int),
{
    let len = image.len();
    if pos == 0 {
        true
    } else if pos > len as u64 {
        false
    } else if pos == len as u64 {
        true
    } else if pos < DELIMITER_SIZE as u64 {
        false
    } else {
        ends_row(image, pos as usize)
    }
}

/// Reads the row that starts at `pos`: its fields, the offset behind it and
/// whether the row delimiter was met.
pub fn scan(image: &[u8], pos: usize) -> (found: (Vec<Vec<u8>>, usize, bool))
    requires
        pos <= image@.len(),
    ensures
        found.0.deep_view() == scan_row(image@, pos as int, pos as int).fields,
        found.1 == scan_row(image@, pos as int, pos as int).end,
        found.2 == scan_row(image@, pos as int, pos as int).closed,
{
    let len = image.len();
    let mut fields: Vec<Vec<u8>> = Vec::new();
    let mut from: usize = pos;
    let mut at: usize = pos;
    let mut end: usize = len;
    let mut open: bool = true;
    while open && at < len
        invariant
            len == image@.len(),
            pos <= from <= at <= len,
            open ==> end == len,
            open ==> scan_row(image@, pos as int, pos as int) == (RowScan {
                fields: fields.deep_view() + scan_row(image@, from as int, at as int).fields,
                end: scan_row(image@, from as int, at as int).end,
                closed: scan_row(image@, from as int, at as int).closed,
            }),
            !open ==> scan_row(image@, pos as int, pos as int) == (RowScan {
                fields: fields.deep_view(),
                end: end as int,
                closed: true,
            }),
        decreases (if open { 1int } else { 0int }) + len - at,
    {
        let ghost before = fields.deep_view();
        let next = at + 1;
        if next - from >= DELIMITER_SIZE {
            let row = ends_row(image, next);
            let field = !row && ends_field(image, next);
            if row || field {
                let piece = slice_to_vec(slice_subrange(image, from, next - DELIMITER_SIZE));
                fields.push(piece);
                proof {
                    let cut = image@.subrange(from as int, next - 8);
                    assert(fields.deep_view() =~= before + seq![cut]) by {
                        assert(fields.deep_view().len() == before.len() + 1);
                        let now = fields.deep_view();
                        assert forall|i: int| 0 <= i < now.len() implies now[i] == (before
                            + seq![cut])[i] by {
                            if i < before.len() {
                                assert(fields.deep_view()[i] == fields@[i].deep_view());
                                assert(before[i] == fields@[i].deep_view());
                            } else {
                                assert(fields@[i]@ =~= cut);
                                assert(fields@[i].deep_view() =~= fields@[i]@);
                            }
                        }
                    }
                    if field {
                        let rest = scan_row(image@, next as int, next as int);
                        assert((before + seq![cut]) + rest.fields =~= before + (seq![cut]
                            + rest.fields));
                    }
                }
                from = next;
                if row {
                    end = next;
                    open = false;
                }
            }
        }
        at = next;
    }
    proof {
        if open {
            assert(fields.deep_view() + Seq::<Seq<u8>>::empty() =~= fields.deep_view());
        }
    }
    (fields, end, !open)
}

/// Appends the frame of `fields` to `out`.
pub fn write_frame(out: &mut Vec<u8>, fields: &Vec<Vec<u8>>)
    ensures
        final(out)@ == old(out)@ + frame(fields.deep_view()),
{
    let ghost start = out@;
    let n = fields.len();
    let mut i: usize = 0;
    while i < n
        invariant
            n == fields@.len(),
            i <= n,
            out@ == start + joined(fields.deep_view(), i as int),
        decreases n - i,
    {
        let ghost before = out@;
        out.extend_from_slice(fields[i].as_slice());
        proof {
            assert(fields.deep_view()[i as int] == fields@[i as int].deep_view());
            assert(fields@[i as int].deep_view() =~= fields@[i as int]@);
            assert(out@ =~= before + fields.deep_view()[i as int]);
        }
        if i != n - 1 {
            push_field_delimiter(out);
            proof {
                assert(out@ =~= start + joined(fields.deep_view(), i + 1));
            }
        } else {
            proof {
                assert(out@ =~= start + joined(fields.deep_view(), i + 1));
            }
        }
        i = i + 1;
    }
    push_row_delimiter(out);
    proof {
        assert(out@ =~= start + frame(fields.deep_view()));
    }
}

fn push_field_delimiter(out: &mut Vec<u8>)
    ensures
        final(out)@ == old(out)@ + field_delimiter(),
{
    out.push(255);
    out.push(0);
    out.push(255);
    out.push(0);
    out.push(255);
    out.push(0);
    out.push(255);
    out.push(0);
    proof {
        assert(out@ =~= old(out)@ + field_delimiter());
    }
}

fn push_row_delimiter(out: &mut Vec<u8>)
    ensures
        final(out)@ == old(out)@ + row_delimiter(),
{
    out.push(0);
    out.push(127);
    out.push(0);
    out.push(255);
    out.push(0);
    out.push(127);
    out.push(0);
    out.push(255);
    proof {
        assert(out@ =~= old(out)@ + row_delimiter());
    }
}

/// Whether `fields` can be stored: frames them and reads the frame back.
pub fn check_frames_cleanly(fields: &Vec<Vec<u8>>) -> (r: bool)
    ensures
        r == frames_cleanly(fields.deep_view()),
{
    let mut framed: Vec<u8> = Vec::new();
    write_frame(&mut framed, fields);
    assert(framed@ =~= frame(fields.deep_view()));
    let (found, end, closed) = scan(framed.as_slice(), 0);
    closed && end == framed.len() && same_fields(&found, fields)
}

/// Whether two lists of fields hold the same bytes.
pub fn same_fields(a: &Vec<Vec<u8>>, b: &Vec<Vec<u8>>) -> (r: bool)
    ensures
        r == (a.deep_view() == b.deep_view()),
{
    if a.len() != b.len() {
        assert(a.deep_view().len() != b.deep_view().len());
        return false;
    }
    let n = a.len();
    let mut i: usize = 0;
    while i < n
        invariant
            n == a@.len(),
            n == b@.len(),
            i <= n,
            forall|k: int| 0 <= k < i ==> a.deep_view()[k] == b.deep_view()[k],
        decreases n - i,
    {
        let same = same_bytes(a[i].as_slice(), b[i].as_slice());
        proof {
            assert(a.deep_view()[i as int] == a@[i as int].deep_view());
            assert(b.deep_view()[i as int] == b@[i as int].deep_view());
            assert(a@[i as int].deep_view() =~= a@[i as int]@);
            assert(b@[i as int].deep_view() =~= b@[i as int]@);
        }
        if !same {
            return false;
        }
        i = i + 1;
    }
    assert(a.deep_view() =~= b.deep_view());
    true
}

/// Whether two runs of bytes are the same.
pub fn same_bytes(a: &[u8], b: &[u8]) -> (r: bool)
    ensures
        r == (a@ == b@),
{
    if a.len() != b.len() {
        return false;
    }
    let n = a.len();
    let mut i: usize = 0;
    while i < n
        invariant
            n == a@.len(),
            n == b@.len(),
            i <= n,
            forall|k: int| 0 <= k < i ==> a@[k] == b@[k],
        decreases n - i,
    {
        if a[i] != b[i] {
            return false;
        }
        i = i + 1;
    }
    assert(a@ =~= b@);
    true
}

/// `pos` is where a row starts: the start of the image, or just behind a
/// row delimiter.
pub open spec fn at_row_start(image: Seq<u8>, pos: int) -> bool {
    pos == 0 || (8 <= pos <= image.len() && window(image, pos) == row_delimiter())
}

/// Reading from `pos` reaches the end of the image over rows that all have
/// `arity` fields and are closed.
pub open spec fn sound_from(image: Seq<u8>, pos: int, arity: nat) -> bool {
    parse_from(image, pos, arity).clean && parse_from(image, pos, arity).sealed
}

/// `rows` with every span moved by `by` bytes.
pub open spec fn moved(rows: Seq<StoredRow>, by: int) -> Seq<StoredRow> {
    Seq::new(
        rows.len(),
        |i: int|
            StoredRow {
                fields: rows[i].fields,
                begin: rows[i].begin + by,
                end: rows[i].end + by,
            },
    )
}

/// The first step of a sound reading: a closed row of the right arity, and
/// a sound reading behind it.
pub proof fn lemma_sound_step(image: Seq<u8>, pos: int, arity: nat)
    requires
        0 <= pos < image.len(),
        sound_from(image, pos, arity),
    ensures
        on_boundary(image, pos),
        scan_row(image, pos, pos).closed,
        scan_row(image, pos, pos).fields.len() == arity,
        pos + 8 <= scan_row(image, pos, pos).end <= image.len(),
        at_row_start(image, scan_row(image, pos, pos).end),
        sound_from(image, scan_row(image, pos, pos).end, arity),
        parse_from(image, pos, arity).rows == seq![
            StoredRow {
                fields: scan_row(image, pos, pos).fields,
                begin: pos,
                end: scan_row(image, pos, pos).end,
            },
        ] + parse_from(image, scan_row(image, pos, pos).end, arity).rows,
{
    lemma_scan_bounds(image, pos, pos);
}

/// Reading the rows of a sound image with one more frame behind it finds
/// the rows of the image and then the fields of the frame.
pub proof fn lemma_parse_append(
    image: Seq<u8>,
    framed: Seq<u8>,
    fields: Seq<Seq<u8>>,
    pos: int,
    arity: nat,
)
    requires
        0 <= pos <= image.len(),
        at_row_start(image, pos),
        sound_from(image, pos, arity),
        scan_row(framed, 0, 0) == (RowScan { fields, end: framed.len() as int, closed: true }),
        fields.len() == arity,
    ensures
        parse_from(image + framed, pos, arity) == (Parse {
            rows: parse_from(image, pos, arity).rows.push(
                StoredRow {
                    fields,
                    begin: image.len() as int,
                    end: (image.len() + framed.len()) as int,
                },
            ),
            clean: true,
            sealed: true,
        }),
    decreases image.len() - pos,
{
    let whole = image + framed;
    let n = image.len() as int;
    let last = StoredRow { fields, begin: n, end: (n + framed.len()) as int };
    lemma_scan_bounds(framed, 0, 0);
    if pos == n {
        if pos != 0 {
            assert(window(whole, pos) =~= window(image, pos));
        }
        lemma_scan_shift(image, framed, 0, 0);
        assert(parse_from(whole, whole.len() as int, arity).rows =~= Seq::<StoredRow>::empty());
        assert(parse_from(image, pos, arity).rows =~= Seq::<StoredRow>::empty());
        assert(seq![last] + Seq::<StoredRow>::empty() =~= Seq::<StoredRow>::empty().push(last));
    } else {
        lemma_sound_step(image, pos, arity);
        let scan = scan_row(image, pos, pos);
        lemma_scan_agree(image, whole, pos, pos);
        if pos != 0 {
            assert(window(whole, pos) =~= window(image, pos));
        }
        lemma_parse_append(image, framed, fields, scan.end, arity);
        let first = StoredRow { fields: scan.fields, begin: pos, end: scan.end };
        let rest = parse_from(image, scan.end, arity).rows;
        assert(seq![first] + rest.push(last) =~= (seq![first] + rest).push(last));
    }
}

/// Rows behind a prefix are read the same whatever the prefix is, as long
/// as the reading starts where a row starts; only their spans move.
pub proof fn lemma_parse_move(a: Seq<u8>, b: Seq<u8>, s: Seq<u8>, q: int, arity: nat)
    requires
        0 <= q <= s.len(),
        q == 0 ==> at_row_start(a + s, a.len() as int) && at_row_start(b + s, b.len() as int),
        q > 0 ==> at_row_start(s, q),
    ensures
        parse_from(b + s, b.len() + q, arity) == (Parse {
            rows: moved(parse_from(a + s, a.len() + q, arity).rows, b.len() - a.len()),
            clean: parse_from(a + s, a.len() + q, arity).clean,
            sealed: parse_from(a + s, a.len() + q, arity).sealed,
        }),
    decreases s.len() - q,
{
    let x = a + s;
    let y = b + s;
    let by = b.len() - a.len();
    let px = a.len() + q;
    let py = b.len() + q;
    if q == s.len() {
        assert(moved(Seq::<StoredRow>::empty(), by) =~= Seq::<StoredRow>::empty());
    } else {
        if q > 0 {
            assert(window(x, px) =~= window(s, q));
            assert(window(y, py) =~= window(s, q));
        }
        assert(on_boundary(x, px));
        assert(on_boundary(y, py));
        lemma_scan_shift(a, s, q, q);
        lemma_scan_shift(b, s, q, q);
        lemma_scan_bounds(s, q, q);
        let scan = scan_row(s, q, q);
        if scan.fields.len() == arity {
            let rx = StoredRow { fields: scan.fields, begin: px, end: a.len() + scan.end };
            let ry = StoredRow { fields: scan.fields, begin: py, end: b.len() + scan.end };
            assert(read_at(x, px, arity) == (ReadResult::Row { fields: scan.fields, end: rx.end }));
            assert(read_at(y, py, arity) == (ReadResult::Row { fields: scan.fields, end: ry.end }));
            if scan.closed {
                lemma_parse_move(a, b, s, scan.end, arity);
            } else {
                assert(rx.end == x.len() && ry.end == y.len());
                assert(parse_from(x, rx.end, arity).rows =~= Seq::<StoredRow>::empty());
                assert(parse_from(y, ry.end, arity).rows =~= Seq::<StoredRow>::empty());
                assert(moved(Seq::<StoredRow>::empty(), by) =~= Seq::<StoredRow>::empty());
            }
            let restx = parse_from(x, rx.end, arity).rows;
            let resty = parse_from(y, ry.end, arity).rows;
            assert(resty == moved(restx, by));
            assert(parse_from(x, px, arity).rows == seq![rx] + restx);
            assert(parse_from(y, py, arity).rows == seq![ry] + resty);
            assert(moved(seq![rx] + restx, by) =~= seq![ry] + moved(restx, by));
        } else {
            assert(read_at(x, px, arity) == ReadResult::Corrupt);
            assert(read_at(y, py, arity) == ReadResult::Corrupt);
            assert(moved(Seq::<StoredRow>::empty(), by) =~= Seq::<StoredRow>::empty());
        }
    }
}

/// Every row of a sound reading lies where a row starts, and reading there
/// gives the row.
pub proof fn lemma_read_parsed(image: Seq<u8>, pos: int, arity: nat, k: int)
    requires
        0 <= pos <= image.len(),
        at_row_start(image, pos),
        sound_from(image, pos, arity),
        0 <= k < parse_from(image, pos, arity).rows.len(),
    ensures
        ({
            let row = parse_from(image, pos, arity).rows[k];
            &&& pos <= row.begin
            &&& row.begin + 8 <= row.end <= image.len()
            &&& at_row_start(image, row.begin)
            &&& at_row_start(image, row.end)
            &&& row.fields.len() == arity
            &&& read_at(image, row.begin, arity) == (ReadResult::Row {
                fields: row.fields,
                end: row.end,
            })
            &&& scan_row(image, row.begin, row.begin) == (RowScan {
                fields: row.fields,
                end: row.end,
                closed: true,
            })
            &&& sound_from(image, row.end, arity)
            &&& parse_from(image, row.end, arity).rows == parse_from(image, pos, arity).rows.skip(
                k + 1,
            )
        }),
    decreases k,
{
    if pos < image.len() {
        lemma_sound_step(image, pos, arity);
        let scan = scan_row(image, pos, pos);
        let rest = parse_from(image, scan.end, arity).rows;
        let rows = parse_from(image, pos, arity).rows;
        if k > 0 {
            lemma_read_parsed(image, scan.end, arity, k - 1);
            assert(rows[k] == rest[k - 1]);
            assert(rest.skip(k) =~= rows.skip(k + 1));
        } else {
            assert(rest =~= rows.skip(1));
        }
    }
}

/// Taking a row out of a sound image leaves a sound image with the other
/// rows: those before it where they were, those behind it moved forward.
pub proof fn lemma_parse_erase(image: Seq<u8>, pos: int, arity: nat, k: int)
    requires
        0 <= pos <= image.len(),
        at_row_start(image, pos),
        sound_from(image, pos, arity),
        0 <= k < parse_from(image, pos, arity).rows.len(),
    ensures
        ({
            let rows = parse_from(image, pos, arity).rows;
            let gone = rows[k];
            &&& pos <= gone.begin < gone.end <= image.len()
            &&& parse_from(
                image.take(gone.begin) + image.skip(gone.end),
                pos,
                arity,
            ) == (Parse {
                rows: rows.take(k) + moved(rows.skip(k + 1), gone.begin - gone.end),
                clean: true,
                sealed: true,
            })
        }),
    decreases k,
{
    let rows = parse_from(image, pos, arity).rows;
    lemma_sound_step(image, pos, arity);
    let scan = scan_row(image, pos, pos);
    let rest = parse_from(image, scan.end, arity).rows;
    if k == 0 {
        let a = image.take(scan.end);
        let b = image.take(pos);
        let s = image.skip(scan.end);
        assert(a + s =~= image);
        if pos != 0 {
            assert(window(b + s, pos) =~= window(image, pos));
        }
        lemma_parse_move(a, b, s, 0, arity);
        assert(rest =~= rows.skip(1));
        assert(rows.take(0) + moved(rows.skip(1), pos - scan.end) =~= moved(rest, pos - scan.end));
    } else {
        lemma_parse_erase(image, scan.end, arity, k - 1);
        lemma_read_parsed(image, pos, arity, k);
        let gone = rows[k];
        assert(gone == rest[k - 1]);
        let less = image.take(gone.begin) + image.skip(gone.end);
        assert forall|i: int| 0 <= i < scan.end implies image[i] == less[i] by {}
        lemma_scan_agree(image, less, pos, pos);
        if pos != 0 {
            assert(window(less, pos) =~= window(image, pos));
        }
        let first = StoredRow { fields: scan.fields, begin: pos, end: scan.end };
        let by = gone.begin - gone.end;
        assert(rows.take(k) =~= seq![first] + rest.take(k - 1));
        assert(rows.skip(k + 1) =~= rest.skip(k));
        assert(seq![first] + (rest.take(k - 1) + moved(rest.skip(k), by)) =~= rows.take(k) + moved(
            rows.skip(k + 1),
            by,
        ));
    }
}

} // verus!
