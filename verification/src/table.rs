//! The row store and the table on top of it.
//!
//! `TableFile` holds the image of one row file and a position in it, and
//! reads, appends and erases framed rows.  `Table` couples a row file with
//! an optional primary index and keeps the two consistent.  Both are generic
//! over the row type, of which they ask only what `TableSchema` offers.

use crate::datatypes::{decode_values, encode_values, well_typed, DType, Kind, Value};
use crate::error::{
    absent_text, corrupt_text, duplicate_text, missing_text, seek_text, Error, ErrorKind,
};
use crate::framing::{
    check_frames_cleanly, frame, is_boundary, lemma_scan_bounds, parse_from, read_at, row_id,
    scan, storable, write_frame, ReadResult, StoredRow,
};
use crate::index::TableIndex;
use std::marker::PhantomData;
use vstd::prelude::*;
use vstd::slice::slice_to_vec;
use vstd::std_specs::cmp::PartialEqSpec;

verus! {

/// The names of a list of named fields.
pub open spec fn pair_names(raw: Seq<(String, Vec<u8>)>) -> Seq<Seq<char>> {
    Seq::new(raw.len(), |i: int| raw[i].0@)
}

/// The bytes of a list of named fields.
pub open spec fn pair_bytes(raw: Seq<(String, Vec<u8>)>) -> Seq<Seq<u8>> {
    Seq::new(raw.len(), |i: int| raw[i].1@)
}

/// The texts of a list of strings.
pub open spec fn texts(names: Seq<String>) -> Seq<Seq<char>> {
    Seq::new(names.len(), |i: int| names[i]@)
}

/// The names of a list of named values.
pub open spec fn value_names(pairs: Seq<(String, DType)>) -> Seq<Seq<char>> {
    Seq::new(pairs.len(), |i: int| pairs[i].0@)
}

/// What a list of named values holds.
pub open spec fn value_views(pairs: Seq<(String, DType)>) -> Seq<Value> {
    Seq::new(pairs.len(), |i: int| pairs[i].1@)
}

/// What a row type offers to the store: the names and kinds of its fields
/// in their fixed order, and a row's values in that order.  The first field
/// is the integer primary key.
pub trait TableSchema: Sized {
    /// The names of the fields, in order.
    spec fn spec_fields() -> Seq<Seq<char>>;

    /// The kinds of the fields, in order.
    spec fn spec_kinds() -> Seq<Kind>;

    /// What the fields of this row hold, in order.
    spec fn spec_values(&self) -> Seq<Value>;

    /// Every field has a name of its own and a kind, and the first field is
    /// an integer.
    proof fn lemma_schema()
        ensures
            Self::spec_fields().len() == Self::spec_kinds().len(),
            Self::spec_kinds().len() >= 1,
            Self::spec_kinds()[0] == Kind::Int,
            Self::spec_fields().no_duplicates(),
    ;

    /// A row holds one value of the right kind for each field.
    proof fn lemma_row(&self)
        ensures
            well_typed(self.spec_values(), Self::spec_kinds()),
    ;

    /// The row whose fields hold the given bytes.
    fn from_(raw: Vec<(String, Vec<u8>)>) -> (row: Self)
        requires
            pair_names(raw@) == Self::spec_fields(),
        ensures
            row.spec_values() == decode_values(Self::spec_kinds(), pair_bytes(raw@)),
    ;

    /// The names of the fields, in order.
    fn fields() -> (names: Vec<String>)
        ensures
            texts(names@) == Self::spec_fields(),
    ;

    /// The kinds of the fields, in order.
    fn kinds() -> (kinds: Vec<Kind>)
        ensures
            kinds@ == Self::spec_kinds(),
    ;

    /// The value of the named field, or `None` where the row type has no
    /// field of that name.
    fn get(&self, field: String) -> (value: Option<DType>)
        ensures
            match value {
                Some(v) => Self::spec_fields().contains(field@) && v@
                    == self.spec_values()[Self::spec_fields().index_of(field@)],
                None => !Self::spec_fields().contains(field@),
            },
    ;

    /// The primary key.
    fn get_id(&self) -> (id: i32)
        ensures
            self.spec_values()[0] == Value::Int(id),
    ;

    /// Every field with its value, in order.
    fn to_map(&self) -> (pairs: Vec<(String, DType)>)
        ensures
            value_names(pairs@) == Self::spec_fields(),
            value_views(pairs@) == self.spec_values(),
    ;

    /// Every field with its bytes, in order.
    fn serialize_to_vec(&self) -> (raw: Vec<(String, Vec<u8>)>)
        ensures
            pair_names(raw@) == Self::spec_fields(),
            pair_bytes(raw@) == encode_values(self.spec_values()),
    ;

    /// Every field with its bytes, in order.
    fn serialize_to_map(&self) -> (raw: Vec<(String, Vec<u8>)>)
        ensures
            pair_names(raw@) == Self::spec_fields(),
            pair_bytes(raw@) == encode_values(self.spec_values()),
    ;
}

/// Number of fields of a row of type `S`.
pub open spec fn arity<S: TableSchema>() -> nat {
    S::spec_kinds().len()
}

/// The bytes that a row of type `S` is stored as.
pub open spec fn row_frame<S: TableSchema>(row: &S) -> Seq<u8> {
    frame(encode_values(row.spec_values()))
}

/// Where a seek to `pos` leads in an image of `len` bytes: to the offset
/// `pos` itself where it is not negative, else to `-pos - 1` bytes before
/// the end; nowhere if that lies before the start.
pub open spec fn seek_target(len: int, pos: i64) -> Option<int> {
    if pos >= 0 {
        Some(pos as int)
    } else if len + pos + 1 >= 0 {
        Some(len + pos + 1)
    } else {
        None
    }
}

/// The image cut or, like a file that is lengthened, filled up with zero
/// bytes to the length `len`.
pub open spec fn set_len(image: Seq<u8>, len: int) -> Seq<u8> {
    if len <= image.len() {
        image.take(len)
    } else {
        image + Seq::new((len - image.len()) as nat, |i: int| 0u8)
    }
}

/// The image that is left when the bytes from `begin` up to `end` are
/// taken out: what lies before `begin`, then what lies behind `end`.
pub open spec fn erased(image: Seq<u8>, begin: int, end: int) -> Seq<u8> {
    if end <= image.len() {
        set_len(image, begin) + image.skip(end)
    } else {
        set_len(image, begin)
    }
}

/// The image of a row file, and a position in it.
pub struct TableFile<S: TableSchema> {
    image: Vec<u8>,
    cursor: u64,
    schema: PhantomData<S>,
}

impl<S: TableSchema> TableFile<S> {
    /// The bytes of the row file.
    pub closed spec fn image_view(&self) -> Seq<u8> {
        self.image@
    }

    /// The current position.
    pub closed spec fn cursor_view(&self) -> int {
        self.cursor as int
    }

    /// A row file with the given bytes, positioned at its start.
    pub fn new(image: Vec<u8>) -> (r: Result<TableFile<S>, Error>)
        ensures
            r matches Ok(file) && file.image_view() == image@ && file.cursor_view() == 0,
    {
        Ok(TableFile { image, cursor: 0, schema: PhantomData })
    }

    /// Moves to the offset `pos` if it is not negative, else to `-pos - 1`
    /// bytes before the end.  Fails, without moving, if that lies before
    /// the start.
    pub fn seek(&mut self, pos: i64) -> (r: Result<(), Error>)
        ensures
            final(self).image_view() == old(self).image_view(),
            match seek_target(old(self).image_view().len() as int, pos) {
                Some(target) => r is Ok && final(self).cursor_view() == target,
                None => r matches Err(e) && e.is(ErrorKind::Io, seek_text())
                    && final(self).cursor_view() == old(self).cursor_view(),
            },
    {
        if pos >= 0 {
            self.cursor = pos as u64;
            Ok(())
        } else {
            let target: i128 = self.image.len() as i128 + pos as i128 + 1;
            if target >= 0 {
                self.cursor = target as u64;
                Ok(())
            } else {
                Err(Error::bad_seek())
            }
        }
    }

    /// Moves to the offset `pos`.
    pub fn seek_to(&mut self, pos: u64)
        ensures
            final(self).image_view() == old(self).image_view(),
            final(self).cursor_view() == pos,
    {
        self.cursor = pos;
    }

    pub fn position(&self) -> (pos: u64)
        ensures
            pos == self.cursor_view(),
    {
        self.cursor
    }

    /// Number of bytes in the image.
    pub fn len(&self) -> (n: usize)
        ensures
            n == self.image_view().len(),
    {
        self.image.len()
    }

    /// The bytes of the row file, for whoever keeps the file.
    pub fn image(&self) -> (bytes: &Vec<u8>)
        ensures
            bytes@ == self.image_view(),
    {
        &self.image
    }

    fn at_beginning(&self) -> (r: bool)
        ensures
            r == (self.cursor_view() == 0),
    {
        self.cursor == 0
    }

    fn at_end(&self) -> (r: bool)
        ensures
            r == (self.cursor_view() == self.image_view().len()),
    {
        self.cursor == self.image.len() as u64
    }

    /// Reads the row at the current position and moves behind it.  At the
    /// end of the image there is no row.  A position that is no row
    /// boundary, or a row with another number of fields than the schema
    /// has, is reported as a corrupt file pointer.  Nothing moves unless a
    /// row is returned.
    pub fn read_row(&mut self) -> (r: Result<Option<(S, u64, u64)>, Error>)
        ensures
            final(self).image_view() == old(self).image_view(),
            match read_at(old(self).image_view(), old(self).cursor_view(), arity::<S>()) {
                ReadResult::End => r matches Ok(None)
                    && final(self).cursor_view() == old(self).cursor_view(),
                ReadResult::Corrupt => r matches Err(e) && e.is(
                    ErrorKind::FilePointerCorrupt,
                    corrupt_text(),
                ) && final(self).cursor_view() == old(self).cursor_view(),
                ReadResult::Row { fields, end } => r matches Ok(Some(found))
                    && found.0.spec_values() == decode_values(S::spec_kinds(), fields)
                    && found.1 == old(self).cursor_view() && found.2 == end
                    && final(self).cursor_view() == end,
            },
    {
        if self.at_end() {
            return Ok(None);
        }
        if !self.at_beginning() && !is_boundary(self.image.as_slice(), self.cursor) {
            return Err(Error::corrupt());
        }
        let len = self.image.len();
        assert(self.cursor <= len);
        let begin = self.cursor as usize;
        let (fields, end, _) = scan(self.image.as_slice(), begin);
        let names = S::fields();
        proof {
            S::lemma_schema();
            lemma_scan_bounds(self.image@, begin as int, begin as int);
            assert(fields@.len() == fields.deep_view().len());
            assert(names@.len() == texts(names@).len());
        }
        if fields.len() != names.len() {
            return Err(Error::corrupt());
        }
        let raw = name_fields(names, fields);
        let row = S::from_(raw);
        self.cursor = end as u64;
        Ok(Some((row, begin as u64, end as u64)))
    }

    /// Appends the row to the image and moves behind it; returns the span
    /// of the bytes written.
    pub fn write_row(&mut self, row: &S) -> (r: Result<(u64, u64), Error>)
        ensures
            final(self).image_view() == old(self).image_view() + row_frame(row),
            final(self).cursor_view() == final(self).image_view().len(),
            r matches Ok(span) && span.0 == old(self).image_view().len()
                && span.1 == final(self).image_view().len(),
    {
        let data = row.serialize_to_vec();
        let fields = field_bytes(&data);
        let begin = self.image.len();
        write_frame(&mut self.image, &fields);
        let end = self.image.len();
        self.cursor = end as u64;
        Ok((begin as u64, end as u64))
    }

    /// Takes the bytes from `begin` up to `end` out of the image: keeps
    /// what follows them, sets the length of the image to `begin` and puts
    /// back what was kept.  Moves to the end.
    pub fn erase(&mut self, begin: u64, end: u64) -> (r: Result<(), Error>)
        requires
            begin < end,
            begin <= usize::MAX,
        ensures
            r is Ok,
            final(self).image_view() == erased(
                old(self).image_view(),
                begin as int,
                end as int,
            ),
            final(self).cursor_view() == final(self).image_view().len(),
    {
        let len = self.image.len();
        let ghost before = self.image@;
        let tail: Vec<u8> = if end <= len as u64 {
            slice_to_vec(vstd::slice::slice_subrange(self.image.as_slice(), end as usize, len))
        } else {
            Vec::new()
        };
        self.image.resize(begin as usize, 0);
        proof {
            assert(self.image@ =~= set_len(before, begin as int));
        }
        self.image.extend_from_slice(tail.as_slice());
        proof {
            assert(self.image@ =~= erased(before, begin as int, end as int));
        }
        self.cursor = self.image.len() as u64;
        Ok(())
    }
}

/// Pairs each name with the bytes at the same place.
fn name_fields(names: Vec<String>, fields: Vec<Vec<u8>>) -> (raw: Vec<(String, Vec<u8>)>)
    requires
        names@.len() == fields@.len(),
    ensures
        pair_names(raw@) == texts(names@),
        pair_bytes(raw@) == fields.deep_view(),
{
    let n = names.len();
    let mut raw: Vec<(String, Vec<u8>)> = Vec::new();
    let mut i: usize = 0;
    while i < n
        invariant
            n == names@.len(),
            n == fields@.len(),
            i <= n,
            raw@.len() == i,
            forall|k: int| 0 <= k < i ==> (#[trigger] raw@[k]).0@ == names@[k]@ && raw@[k].1@
                == fields@[k]@,
        decreases n - i,
    {
        raw.push((names[i].clone(), slice_to_vec(fields[i].as_slice())));
        i = i + 1;
    }
    proof {
        assert(pair_names(raw@) =~= texts(names@));
        assert forall|k: int| 0 <= k < n implies pair_bytes(raw@)[k] == fields.deep_view()[k] by {
            assert(fields.deep_view()[k] == fields@[k].deep_view());
            assert(fields@[k].deep_view() =~= fields@[k]@);
            assert(raw@[k].1@ == fields@[k]@);
        }
        assert(pair_bytes(raw@) =~= fields.deep_view());
    }
    raw
}

/// The bytes of a list of named fields.
fn field_bytes(raw: &Vec<(String, Vec<u8>)>) -> (fields: Vec<Vec<u8>>)
    ensures
        fields.deep_view() == pair_bytes(raw@),
{
    let n = raw.len();
    let mut fields: Vec<Vec<u8>> = Vec::new();
    let mut i: usize = 0;
    while i < n
        invariant
            n == raw@.len(),
            i <= n,
            fields@.len() == i,
            forall|k: int| 0 <= k < i ==> (#[trigger] fields@[k])@ == raw@[k].1@,
        decreases n - i,
    {
        fields.push(slice_to_vec(raw[i].1.as_slice()));
        i = i + 1;
    }
    proof {
        assert forall|k: int| 0 <= k < n implies fields.deep_view()[k] == pair_bytes(raw@)[k] by {
            assert(fields.deep_view()[k] == fields@[k].deep_view());
            assert(fields@[k].deep_view() =~= fields@[k]@);
        }
        assert(fields.deep_view() =~= pair_bytes(raw@));
    }
    fields
}

/// The outcome of looking for a row by its id.
pub enum Found {
    /// The first row with the id.
    Row(StoredRow),
    /// The end of the image was reached and no row had the id.
    Missing,
    /// A corrupt row was met before any row with the id.
    Corrupt,
}

/// Reads row after row from `pos` until one has the id.
pub open spec fn find_from(image: Seq<u8>, pos: int, arity: nat, id: i32) -> Found
    decreases image.len() - pos,
{
    match read_at(image, pos, arity) {
        ReadResult::End => Found::Missing,
        ReadResult::Corrupt => Found::Corrupt,
        ReadResult::Row { fields, end } => {
            if row_id(fields) == id {
                Found::Row(StoredRow { fields, begin: pos, end })
            } else if pos < end <= image.len() {
                find_from(image, end, arity, id)
            } else {
                Found::Corrupt
            }
        },
    }
}

/// Reads row after row from `pos` and maps the id of each to the offset at
/// which it starts, on top of `seen`.  Of two rows with the same id the
/// later one stays.  A corrupt row ends the reading.
pub open spec fn index_from(image: Seq<u8>, pos: int, arity: nat, seen: Map<i32, u64>) -> Map<
    i32,
    u64,
>
    decreases image.len() - pos,
{
    match read_at(image, pos, arity) {
        ReadResult::End => seen,
        ReadResult::Corrupt => seen,
        ReadResult::Row { fields, end } => {
            if pos < end <= image.len() {
                index_from(image, end, arity, seen.insert(row_id(fields), pos as u64))
            } else {
                seen
            }
        },
    }
}

/// The index that a full scan of the image builds.
pub open spec fn scanned_index(image: Seq<u8>, arity: nat) -> Map<i32, u64> {
    index_from(image, 0, arity, Map::empty())
}

/// Reads row after row from `pos` to the end and keeps the fields of the
/// rows that `keep` accepts, in the order of the image; `None` if a corrupt
/// row is met.
pub open spec fn select_from(
    image: Seq<u8>,
    pos: int,
    arity: nat,
    keep: spec_fn(Seq<Seq<u8>>) -> bool,
) -> Option<Seq<Seq<Seq<u8>>>>
    decreases image.len() - pos,
{
    match read_at(image, pos, arity) {
        ReadResult::End => Some(Seq::empty()),
        ReadResult::Corrupt => None,
        ReadResult::Row { fields, end } => {
            if pos < end <= image.len() {
                match select_from(image, end, arity, keep) {
                    Some(rest) => Some(
                        if keep(fields) {
                            seq![fields] + rest
                        } else {
                            rest
                        },
                    ),
                    None => None,
                }
            } else {
                None
            }
        },
    }
}

/// What a filter asks: a value for each of some fields.
pub open spec fn filter_view(filter: Seq<(String, DType)>) -> Seq<(Seq<char>, Value)> {
    Seq::new(filter.len(), |i: int| (filter[i].0@, filter[i].1@))
}

/// The row holds the asked value in the named field, or has no field of
/// that name.
pub open spec fn pair_holds(
    values: Seq<Value>,
    names: Seq<Seq<char>>,
    asked: (Seq<char>, Value),
) -> bool {
    names.contains(asked.0) ==> values[names.index_of(asked.0)] == asked.1
}

/// The row satisfies every pair of the filter.
pub open spec fn matches_filter(
    values: Seq<Value>,
    names: Seq<Seq<char>>,
    filter: Seq<(Seq<char>, Value)>,
) -> bool {
    forall|k: int| 0 <= k < filter.len() ==> pair_holds(values, names, #[trigger] filter[k])
}

/// The stored rows of type `S` that satisfy the filter.
pub open spec fn keeps<S: TableSchema>(filter: Seq<(Seq<char>, Value)>) -> spec_fn(
    Seq<Seq<u8>>,
) -> bool {
    |fields: Seq<Seq<u8>>|
        matches_filter(decode_values(S::spec_kinds(), fields), S::spec_fields(), filter)
}

/// What each row of a list holds.
pub open spec fn row_values<S: TableSchema>(rows: Seq<S>) -> Seq<Seq<Value>> {
    Seq::new(rows.len(), |i: int| rows[i].spec_values())
}

/// What each of a list of stored rows holds.
pub open spec fn decoded<S: TableSchema>(rows: Seq<Seq<Seq<u8>>>) -> Seq<Seq<Value>> {
    Seq::new(rows.len(), |i: int| decode_values(S::spec_kinds(), rows[i]))
}

/// Why an operation failed: the kind of the error and its message.
pub struct Fault {
    pub kind: ErrorKind,
    pub message: Seq<char>,
}

pub open spec fn missing() -> Fault {
    Fault { kind: ErrorKind::NotFound, message: missing_text() }
}

pub open spec fn absent() -> Fault {
    Fault { kind: ErrorKind::NotFound, message: absent_text() }
}

pub open spec fn duplicate() -> Fault {
    Fault { kind: ErrorKind::AlreadyExists, message: duplicate_text() }
}

pub open spec fn corrupt() -> Fault {
    Fault { kind: ErrorKind::FilePointerCorrupt, message: corrupt_text() }
}

/// The error is the one that the fault describes.
pub open spec fn reports(e: Error, fault: Fault) -> bool {
    e.is(fault.kind, fault.message)
}

/// A table as the operations see it: the image of the row file and, where
/// the table has an index, the map that the index holds.
pub struct TableView {
    pub image: Seq<u8>,
    pub index: Option<Map<i32, u64>>,
}

impl TableView {
    /// The fields of the row that `get` returns for `id`.  With an index the
    /// row is read at the offset that the index gives; without one the rows
    /// are read in order and the first with the id is taken.
    pub open spec fn lookup(self, arity: nat, id: i32) -> Result<Seq<Seq<u8>>, Fault> {
        match self.index {
            Some(map) => {
                if map.contains_key(id) {
                    match read_at(self.image, map[id] as int, arity) {
                        ReadResult::Row { fields, end } => Ok(fields),
                        ReadResult::End => Err(missing()),
                        ReadResult::Corrupt => Err(corrupt()),
                    }
                } else {
                    Err(missing())
                }
            },
            None => match find_from(self.image, 0, arity, id) {
                Found::Row(row) => Ok(row.fields),
                Found::Missing => Err(missing()),
                Found::Corrupt => Err(corrupt()),
            },
        }
    }

    /// The table with the frame of a row appended and, where there is an
    /// index, the row's id mapped to where the frame starts.
    pub open spec fn with_row(self, id: i32, framed: Seq<u8>) -> TableView {
        TableView {
            image: self.image + framed,
            index: match self.index {
                Some(map) => Some(map.insert(id, self.image.len() as u64)),
                None => None,
            },
        }
    }

    /// The table after `create` of a row with the given id and frame, and
    /// what `create` returns.  A table with an index refuses an id that the
    /// index holds; one without refuses an id that a lookup finds, and
    /// gives up where the lookup fails for another reason than absence.
    pub open spec fn create(self, arity: nat, id: i32, framed: Seq<u8>) -> (
        TableView,
        Result<i32, Fault>,
    ) {
        match self.index {
            Some(map) => {
                if map.contains_key(id) {
                    (self, Err(duplicate()))
                } else {
                    (self.with_row(id, framed), Ok(id))
                }
            },
            None => match self.lookup(arity, id) {
                Ok(_) => (self, Err(duplicate())),
                Err(fault) => {
                    if fault.kind == ErrorKind::NotFound {
                        (self.with_row(id, framed), Ok(id))
                    } else {
                        (self, Err(fault))
                    }
                },
            },
        }
    }

    /// The table with the index, where there is one, built anew by a scan.
    pub open spec fn rebuilt(self, arity: nat) -> TableView {
        TableView {
            image: self.image,
            index: match self.index {
                Some(_) => Some(scanned_index(self.image, arity)),
                None => None,
            },
        }
    }

    /// The table after `delete` of the given id, and what `delete` returns:
    /// the first row with the id is taken out of the image and the index is
    /// built anew.
    pub open spec fn delete(self, arity: nat, id: i32) -> (TableView, Result<(), Fault>) {
        match find_from(self.image, 0, arity, id) {
            Found::Row(row) => {
                let cut = TableView {
                    image: erased(self.image, row.begin, row.end),
                    index: self.index,
                };
                (cut.rebuilt(arity), Ok(()))
            },
            Found::Missing => (self, Err(absent())),
            Found::Corrupt => (self, Err(corrupt())),
        }
    }

    /// The table after `update` with a row of the given id and frame, and
    /// what `update` returns: a `delete` and, where that succeeds, a
    /// `create`.
    pub open spec fn update(self, arity: nat, id: i32, framed: Seq<u8>) -> (
        TableView,
        Result<(), Fault>,
    ) {
        let (without, gone) = self.delete(arity, id);
        match gone {
            Err(fault) => (without, Err(fault)),
            Ok(_) => {
                let (with, made) = without.create(arity, id, framed);
                (
                    with,
                    match made {
                        Ok(_) => Ok(()),
                        Err(fault) => Err(fault),
                    },
                )
            },
        }
    }
}

/// What an index holds, where there is one.
pub open spec fn index_view(index: Option<TableIndex>) -> Option<Map<i32, u64>> {
    match index {
        Some(ix) => Some(ix@),
        None => None,
    }
}

/// The image of the index, where there is one, is a snapshot of its map.
pub open spec fn index_in_sync(index: Option<TableIndex>) -> bool {
    match index {
        Some(ix) => ix.in_sync(),
        None => true,
    }
}

/// A table: a row file and, optionally, a primary index over it.
pub struct Table<S: TableSchema> {
    pub name: String,
    pub index: Option<TableIndex>,
    file: TableFile<S>,
}

impl<S: TableSchema> View for Table<S> {
    type V = TableView;

    closed spec fn view(&self) -> TableView {
        TableView { image: self.file.image_view(), index: index_view(self.index) }
    }
}

impl<S: TableSchema> Table<S> {
    /// The name of the table.
    pub closed spec fn label(&self) -> Seq<char> {
        self.name@
    }

    /// The bytes of the index image, where the table has an index.
    pub closed spec fn index_image(&self) -> Option<Seq<u8>> {
        match self.index {
            Some(ix) => Some(ix.image_view()),
            None => None,
        }
    }

    /// The image of the index, where there is one, is a snapshot of its map.
    pub closed spec fn in_sync(&self) -> bool {
        index_in_sync(self.index)
    }

    /// A table over a row file.  An index that is handed in is built anew
    /// by a scan of the row file, whatever it held.
    pub fn new(name: String, file: TableFile<S>, index: Option<TableIndex>) -> (r: Result<
        Table<S>,
        Error,
    >)
        ensures
            r matches Ok(table) && table.label() == name@ && table@ == (TableView {
                image: file.image_view(),
                index: index_view(index),
            }).rebuilt(arity::<S>()) && table.in_sync(),
    {
        let mut table = Table { name, index, file };
        let _ = table.refresh_indexes();
        Ok(table)
    }

    /// Whether the row can be stored: whether a reader of its frame finds
    /// exactly its fields.  A row that cannot be stored can still be passed
    /// to `create`, and then corrupts the image.
    pub fn can_store(row: &S) -> (r: bool)
        ensures
            r == storable(encode_values(row.spec_values()), arity::<S>()),
    {
        let data = row.serialize_to_vec();
        let fields = field_bytes(&data);
        proof {
            S::lemma_schema();
            row.lemma_row();
            assert(fields@.len() == fields.deep_view().len());
        }
        check_frames_cleanly(&fields)
    }

    /// The name and kind of each field of the row type, in order.
    pub fn schema_info() -> (info: Vec<(String, Kind)>)
        ensures
            info@.len() == arity::<S>(),
            forall|i: int|
                0 <= i < info@.len() ==> (#[trigger] info@[i]).0@ == S::spec_fields()[i]
                    && info@[i].1 == S::spec_kinds()[i],
    {
        let names = S::fields();
        let kinds = S::kinds();
        proof {
            S::lemma_schema();
            assert(texts(names@).len() == names@.len());
        }
        let n = names.len();
        let mut info: Vec<(String, Kind)> = Vec::new();
        let mut i: usize = 0;
        while i < n
            invariant
                n == names@.len(),
                n == kinds@.len(),
                n == arity::<S>(),
                texts(names@) == S::spec_fields(),
                kinds@ == S::spec_kinds(),
                i <= n,
                info@.len() == i,
                forall|k: int|
                    0 <= k < i ==> (#[trigger] info@[k]).0@ == S::spec_fields()[k] && info@[k].1
                        == S::spec_kinds()[k],
            decreases n - i,
        {
            assert(texts(names@)[i as int] == names@[i as int]@);
            info.push((names[i].clone(), kinds[i]));
            i = i + 1;
        }
        info
    }

    /// The bytes of the row file, for whoever keeps the file.
    pub fn image(&self) -> (bytes: &Vec<u8>)
        ensures
            bytes@ == self@.image,
    {
        self.file.image()
    }

    /// The row with the given id.
    pub fn get(&mut self, id: i32) -> (r: Result<S, Error>)
        ensures
            final(self)@ == old(self)@,
            final(self).index_image() == old(self).index_image(),
            final(self).label() == old(self).label(),
            match old(self)@.lookup(arity::<S>(), id) {
                Ok(fields) => r matches Ok(row) && row.spec_values() == decode_values(
                    S::spec_kinds(),
                    fields,
                ),
                Err(fault) => r matches Err(e) && reports(e, fault),
            },
    {
        match &self.index {
            Some(index) => match index.get(id) {
                Some(pos) => {
                    self.file.seek_to(pos);
                    match self.file.read_row() {
                        Ok(Some((row, _, _))) => Ok(row),
                        Ok(None) => Err(Error::missing()),
                        Err(e) => Err(e),
                    }
                },
                None => Err(Error::missing()),
            },
            None => match self.find(id) {
                Ok(Some((row, _, _))) => Ok(row),
                Ok(None) => Err(Error::missing()),
                Err(e) => Err(e),
            },
        }
    }

    /// The rows that satisfy every pair of the filter, in the order of the
    /// image.  A pair that names no field of the row type asks nothing.
    pub fn select(&mut self, filter: Vec<(String, DType)>) -> (r: Result<Vec<S>, Error>)
        ensures
            final(self)@ == old(self)@,
            final(self).index_image() == old(self).index_image(),
            final(self).label() == old(self).label(),
            match select_from(
                old(self)@.image,
                0,
                arity::<S>(),
                keeps::<S>(filter_view(filter@)),
            ) {
                Some(rows) => r matches Ok(found) && row_values(found@) == decoded::<S>(rows),
                None => r matches Err(e) && reports(e, corrupt()),
            },
    {
        self.file.seek_to(0);
        let mut result: Vec<S> = Vec::new();
        let ghost image = self.file.image_view();
        let ghost keep = keeps::<S>(filter_view(filter@));
        let ghost mut done: Seq<Seq<Seq<u8>>> = Seq::empty();
        loop
            invariant
                self.file.image_view() == image,
                self.index == old(self).index,
                self.name == old(self).name,
                image == old(self)@.image,
                keep == keeps::<S>(filter_view(filter@)),
                0 <= self.file.cursor_view() <= image.len(),
                row_values(result@) == decoded::<S>(done),
                match select_from(image, self.file.cursor_view(), arity::<S>(), keep) {
                    Some(rest) => select_from(image, 0, arity::<S>(), keep) == Some(done + rest),
                    None => select_from(image, 0, arity::<S>(), keep) is None,
                },
            decreases image.len() - self.file.cursor_view(),
        {
            let ghost pos = self.file.cursor_view();
            proof {
                lemma_scan_bounds(image, pos, pos);
            }
            match self.file.read_row() {
                Err(e) => {
                    return Err(e);
                },
                Ok(None) => {
                    proof {
                        assert(done + Seq::<Seq<Seq<u8>>>::empty() =~= done);
                    }
                    return Ok(result);
                },
                Ok(Some((row, _, _))) => {
                    let ghost fields = read_at(image, pos, arity::<S>())->fields;
                    let ghost before = result@;
                    if Self::row_matches(&row, &filter) {
                        result.push(row);
                        proof {
                            let now = done.push(fields);
                            assert(row_values(before).len() == before.len());
                            assert(decoded::<S>(done).len() == done.len());
                            assert(decoded::<S>(now).len() == now.len());
                            assert(row_values(result@).len() == result@.len());
                            assert forall|i: int| 0 <= i < result@.len() implies row_values(
                                result@,
                            )[i] == decoded::<S>(now)[i] by {
                                if i < before.len() {
                                    assert(row_values(before)[i] == decoded::<S>(done)[i]);
                                    assert(result@[i] == before[i]);
                                }
                            }
                            assert(row_values(result@) =~= decoded::<S>(now));
                            match select_from(image, self.file.cursor_view(), arity::<S>(), keep) {
                                Some(rest) => {
                                    assert(done + (seq![fields] + rest) =~= now + rest);
                                },
                                None => {},
                            }
                            done = now;
                        }
                    }
                },
            }
        }
    }

    /// Whether the row satisfies every pair of the filter.
    fn row_matches(row: &S, filter: &Vec<(String, DType)>) -> (r: bool)
        ensures
            r == matches_filter(row.spec_values(), S::spec_fields(), filter_view(filter@)),
    {
        let n = filter.len();
        let mut k: usize = 0;
        while k < n
            invariant
                n == filter@.len(),
                k <= n,
                forall|j: int|
                    0 <= j < k ==> pair_holds(
                        row.spec_values(),
                        S::spec_fields(),
                        #[trigger] filter_view(filter@)[j],
                    ),
            decreases n - k,
        {
            let ghost asked = filter_view(filter@)[k as int];
            match row.get(filter[k].0.clone()) {
                Some(value) => {
                    if !value.eq(&filter[k].1) {
                        assert(!pair_holds(row.spec_values(), S::spec_fields(), asked));
                        return false;
                    }
                },
                None => {},
            }
            k = k + 1;
        }
        true
    }

    /// Stores the row, unless a row with its id is stored already; returns
    /// the id.
    pub fn create(&mut self, row: S) -> (r: Result<i32, Error>)
        ensures
            final(self).label() == old(self).label(),
            final(self)@ == old(self)@.create(
                arity::<S>(),
                row_id(encode_values(row.spec_values())),
                row_frame(&row),
            ).0,
            match old(self)@.create(
                arity::<S>(),
                row_id(encode_values(row.spec_values())),
                row_frame(&row),
            ).1 {
                Ok(id) => r == Ok::<i32, Error>(id),
                Err(fault) => r matches Err(e) && reports(e, fault),
            },
            r is Err ==> final(self).index_image() == old(self).index_image(),
            r is Ok ==> final(self).in_sync(),
    {
        let id = row.get_id();
        proof {
            S::lemma_schema();
            row.lemma_row();
            crate::datatypes::lemma_value_round_trip(row.spec_values()[0]);
        }
        match self.index.take() {
            Some(mut index) => {
                if index.contains(id) {
                    self.index = Some(index);
                    return Err(Error::duplicate());
                }
                let written_pos = self.file.write_row(&row).unwrap();
                index.set(id, written_pos.0);
                self.index = Some(index);
                Ok(id)
            },
            None => {
                match self.get(id) {
                    Ok(_) => Err(Error::duplicate()),
                    Err(e) => {
                        if e.kind == ErrorKind::NotFound {
                            self.file.write_row(&row).unwrap();
                            Ok(id)
                        } else {
                            Err(e)
                        }
                    },
                }
            },
        }
    }

    /// Replaces the stored row that has the id of the given row: removes
    /// it, then stores the given row.
    pub fn update(&mut self, row: S) -> (r: Result<(), Error>)
        ensures
            final(self).label() == old(self).label(),
            final(self)@ == old(self)@.update(
                arity::<S>(),
                row_id(encode_values(row.spec_values())),
                row_frame(&row),
            ).0,
            match old(self)@.update(
                arity::<S>(),
                row_id(encode_values(row.spec_values())),
                row_frame(&row),
            ).1 {
                Ok(_) => r is Ok,
                Err(fault) => r matches Err(e) && reports(e, fault),
            },
    {
        let id = row.get_id();
        proof {
            S::lemma_schema();
            row.lemma_row();
            crate::datatypes::lemma_value_round_trip(row.spec_values()[0]);
        }
        match self.delete(id) {
            Err(e) => Err(e),
            Ok(_) => match self.create(row) {
                Ok(_) => Ok(()),
                Err(e) => Err(e),
            },
        }
    }

    /// Removes the first row with the given id and builds the index anew.
    pub fn delete(&mut self, id: i32) -> (r: Result<(), Error>)
        ensures
            final(self).label() == old(self).label(),
            final(self)@ == old(self)@.delete(arity::<S>(), id).0,
            match old(self)@.delete(arity::<S>(), id).1 {
                Ok(_) => r is Ok,
                Err(fault) => r matches Err(e) && reports(e, fault),
            },
            r is Err ==> final(self).index_image() == old(self).index_image(),
            r is Ok ==> final(self).in_sync(),
    {
        let found = self.find(id);
        let (begin, end) = match found {
            Err(e) => {
                return Err(e);
            },
            Ok(None) => {
                return Err(Error::absent());
            },
            Ok(Some((_, begin, end))) => (begin, end),
        };
        let len = self.file.len();
        proof {
            lemma_find_bounds(self.file.image_view(), 0, arity::<S>(), id);
        }
        assert(begin < end <= len);
        self.file.erase(begin, end).unwrap();
        let _ = self.refresh_indexes();
        Ok(())
    }

    /// The first row with the given id, with the span of its bytes.
    fn find(&mut self, id: i32) -> (r: Result<Option<(S, u64, u64)>, Error>)
        ensures
            final(self)@ == old(self)@,
            final(self).index_image() == old(self).index_image(),
            final(self).label() == old(self).label(),
            match find_from(old(self)@.image, 0, arity::<S>(), id) {
                Found::Row(stored) => r matches Ok(Some(found))
                    && found.0.spec_values() == decode_values(S::spec_kinds(), stored.fields)
                    && found.1 == stored.begin && found.2 == stored.end,
                Found::Missing => r matches Ok(None),
                Found::Corrupt => r matches Err(e) && reports(e, corrupt()),
            },
    {
        self.file.seek_to(0);
        let ghost image = self.file.image_view();
        loop
            invariant
                self.file.image_view() == image,
                self.index == old(self).index,
                self.name == old(self).name,
                image == old(self)@.image,
                0 <= self.file.cursor_view() <= image.len(),
                find_from(image, 0, arity::<S>(), id) == find_from(
                    image,
                    self.file.cursor_view(),
                    arity::<S>(),
                    id,
                ),
            decreases image.len() - self.file.cursor_view(),
        {
            let ghost pos = self.file.cursor_view();
            proof {
                S::lemma_schema();
                lemma_scan_bounds(image, pos, pos);
            }
            match self.file.read_row() {
                Err(e) => {
                    return Err(e);
                },
                Ok(None) => {
                    return Ok(None);
                },
                Ok(Some((row, begin, end))) => {
                    if row.get_id() == id {
                        return Ok(Some((row, begin, end)));
                    }
                },
            }
        }
    }

    /// Builds the index, where there is one, anew by a scan of the row
    /// file.  Fails where the scan meets a corrupt row; the index then
    /// holds the rows before it.
    fn refresh_indexes(&mut self) -> (r: Result<(), Error>)
        ensures
            final(self).label() == old(self).label(),
            final(self)@ == old(self)@.rebuilt(arity::<S>()),
            final(self).in_sync(),
            old(self)@.index is None ==> r is Ok,
            old(self)@.index is Some ==> (r is Ok <==> parse_from(
                old(self)@.image,
                0,
                arity::<S>(),
            ).clean),
            r matches Err(e) ==> reports(e, corrupt()),
    {
        let mut index = match self.index.take() {
            Some(index) => index,
            None => {
                assert(self@ =~= old(self)@.rebuilt(arity::<S>()));
                return Ok(());
            },
        };
        self.file.seek_to(0);
        index.clear();
        let ghost image = self.file.image_view();
        loop
            invariant
                self.file.image_view() == image,
                self.index is None,
                old(self).index is Some,
                self.name == old(self).name,
                image == old(self)@.image,
                0 <= self.file.cursor_view() <= image.len(),
                index.in_sync(),
                scanned_index(image, arity::<S>()) == index_from(
                    image,
                    self.file.cursor_view(),
                    arity::<S>(),
                    index@,
                ),
                parse_from(image, 0, arity::<S>()).clean == parse_from(
                    image,
                    self.file.cursor_view(),
                    arity::<S>(),
                ).clean,
            decreases image.len() - self.file.cursor_view(),
        {
            let ghost pos = self.file.cursor_view();
            proof {
                S::lemma_schema();
                lemma_scan_bounds(image, pos, pos);
            }
            match self.file.read_row() {
                Err(e) => {
                    self.index = Some(index);
                    return Err(e);
                },
                Ok(None) => {
                    self.index = Some(index);
                    return Ok(());
                },
                Ok(Some((row, begin, _))) => {
                    index.set(row.get_id(), begin);
                },
            }
        }
    }
}

/// A row that is found lies inside the image and is not empty.
pub proof fn lemma_find_bounds(image: Seq<u8>, pos: int, arity: nat, id: i32)
    requires
        0 <= pos <= image.len(),
    ensures
        find_from(image, pos, arity, id) matches Found::Row(row) ==> pos <= row.begin < row.end
            <= image.len(),
    decreases image.len() - pos,
{
    lemma_scan_bounds(image, pos, pos);
    match read_at(image, pos, arity) {
        ReadResult::Row { fields, end } => {
            if row_id(fields) != id && pos < end <= image.len() {
                lemma_find_bounds(image, end, arity, id);
            }
        },
        _ => {},
    }
}

} // verus!
