//! What holds of a table across its operations.
//!
//! The operations are stated over readings of the image; here those
//! readings are tied to the list of rows that the image holds, and the laws
//! of the table are proved from that: a row that was created is found, an
//! id is stored once, a row that was deleted is gone, a selection is a
//! filter of the rows in their order, and the index that the table carries
//! is the index that a fresh scan would build.

use crate::datatypes::{decode_values, encode_values, lemma_values_round_trip};
use crate::framing::{
    at_row_start, frame, frames_cleanly, lemma_parse_append, lemma_parse_erase,
    lemma_read_parsed, lemma_scan_bounds, lemma_sound_step, moved, parse, parse_from, read_at,
    row_id, scan_row, sound_from, storable, ReadResult, StoredRow,
};
use crate::table::{
    absent, arity, duplicate, erased, find_from, index_from, keeps, matches_filter, missing,
    row_frame, scanned_index, select_from, Fault, Found, TableSchema, TableView,
};
use vstd::prelude::*;

verus! {

/// The fields of each row of a list.
pub open spec fn fields_of(rows: Seq<StoredRow>) -> Seq<Seq<Seq<u8>>> {
    Seq::new(rows.len(), |i: int| rows[i].fields)
}

/// Some row of the list has the id.
pub open spec fn holds_id(rows: Seq<StoredRow>, id: i32) -> bool {
    exists|i: int| 0 <= i < rows.len() && row_id(#[trigger] rows[i].fields) == id
}

/// No two rows of the list have the same id.
pub open spec fn distinct_ids(rows: Seq<StoredRow>) -> bool {
    forall|i: int, j: int|
        0 <= i < j < rows.len() ==> row_id(#[trigger] rows[i].fields) != row_id(
            #[trigger] rows[j].fields,
        )
}

/// The place of the first row with the id.
pub open spec fn first_with(rows: Seq<StoredRow>, id: i32) -> Option<int>
    decreases rows.len(),
{
    if rows.len() == 0 {
        None
    } else if row_id(rows[0].fields) == id {
        Some(0)
    } else {
        match first_with(rows.drop_first(), id) {
            Some(k) => Some(k + 1),
            None => None,
        }
    }
}

/// `seen` with the id of each row mapped to the offset at which the row
/// starts, the rows taken in order.
pub open spec fn index_of_rows(seen: Map<i32, u64>, rows: Seq<StoredRow>) -> Map<i32, u64>
    decreases rows.len(),
{
    if rows.len() == 0 {
        seen
    } else {
        index_of_rows(seen.insert(row_id(rows[0].fields), rows[0].begin as u64), rows.drop_first())
    }
}

/// The index that the table carries, where it carries one, is the index
/// that a scan of its image builds.
pub open spec fn consistent(table: TableView, arity: nat) -> bool {
    match table.index {
        Some(map) => map == scanned_index(table.image, arity),
        None => true,
    }
}

/// The image consists of closed rows of the right arity with ids of their
/// own, its offsets fit in 64 bits, and the index is consistent with it.
pub open spec fn well_formed(table: TableView, arity: nat) -> bool {
    &&& arity >= 1
    &&& table.image.len() <= u64::MAX
    &&& sound_from(table.image, 0, arity)
    &&& distinct_ids(parse(table.image, arity).rows)
    &&& consistent(table, arity)
}

/// Where the first row with an id is, no earlier row has the id; where
/// there is none, no row has it.
pub proof fn lemma_first_with(rows: Seq<StoredRow>, id: i32)
    ensures
        match first_with(rows, id) {
            Some(k) => 0 <= k < rows.len() && row_id(rows[k].fields) == id && forall|j: int|
                0 <= j < k ==> row_id(#[trigger] rows[j].fields) != id,
            None => !holds_id(rows, id),
        },
    decreases rows.len(),
{
    if rows.len() > 0 && row_id(rows[0].fields) != id {
        let rest = rows.drop_first();
        lemma_first_with(rest, id);
        match first_with(rest, id) {
            Some(k) => {
                assert forall|j: int| 0 <= j < k + 1 implies row_id(#[trigger] rows[j].fields)
                    != id by {
                    if j > 0 {
                        assert(rows[j] == rest[j - 1]);
                    }
                }
            },
            None => {
                assert forall|i: int| 0 <= i < rows.len() implies row_id(
                    #[trigger] rows[i].fields,
                ) != id by {
                    if i > 0 {
                        assert(rows[i] == rest[i - 1]);
                    }
                }
            },
        }
    }
}

/// The first row with an id, in a list with one more row at its end.
pub proof fn lemma_first_with_push(rows: Seq<StoredRow>, last: StoredRow, id: i32)
    ensures
        first_with(rows.push(last), id) == match first_with(rows, id) {
            Some(k) => Some(k),
            None => if row_id(last.fields) == id {
                Some(rows.len() as int)
            } else {
                None
            },
        },
    decreases rows.len(),
{
    let more = rows.push(last);
    reveal_with_fuel(first_with, 2);
    if rows.len() == 0 {
        assert(more.drop_first() =~= Seq::<StoredRow>::empty());
        assert(more[0] == last);
    } else {
        assert(more[0] == rows[0]);
        assert(more.drop_first() =~= rows.drop_first().push(last));
        if row_id(rows[0].fields) != id {
            lemma_first_with_push(rows.drop_first(), last, id);
        }
    }
}

/// Looking for an id in a clean image finds the first row with the id in
/// the list of its rows.
pub proof fn lemma_find_is_first(image: Seq<u8>, pos: int, arity: nat, id: i32)
    requires
        0 <= pos <= image.len(),
        parse_from(image, pos, arity).clean,
    ensures
        find_from(image, pos, arity, id) == match first_with(
            parse_from(image, pos, arity).rows,
            id,
        ) {
            Some(k) => Found::Row(parse_from(image, pos, arity).rows[k]),
            None => Found::Missing,
        },
    decreases image.len() - pos,
{
    lemma_scan_bounds(image, pos, pos);
    match read_at(image, pos, arity) {
        ReadResult::Row { fields, end } => {
            let rows = parse_from(image, pos, arity).rows;
            let rest = parse_from(image, end, arity).rows;
            assert(rows.drop_first() =~= rest);
            assert(rows[0] == StoredRow { fields, begin: pos, end });
            if row_id(fields) != id {
                lemma_find_is_first(image, end, arity, id);
                lemma_first_with(rest, id);
                match first_with(rest, id) {
                    Some(k) => {
                        assert(rows[k + 1] == rest[k]);
                    },
                    None => {},
                }
            }
        },
        _ => {},
    }
}

/// The index that a scan builds maps the rows of the image, in order.
pub proof fn lemma_index_is_rows(image: Seq<u8>, pos: int, arity: nat, seen: Map<i32, u64>)
    requires
        0 <= pos <= image.len(),
    ensures
        index_from(image, pos, arity, seen) == index_of_rows(
            seen,
            parse_from(image, pos, arity).rows,
        ),
    decreases image.len() - pos,
{
    lemma_scan_bounds(image, pos, pos);
    match read_at(image, pos, arity) {
        ReadResult::Row { fields, end } => {
            let rows = parse_from(image, pos, arity).rows;
            let rest = parse_from(image, end, arity).rows;
            assert(rows.drop_first() =~= rest);
            assert(rows[0] == StoredRow { fields, begin: pos, end });
            lemma_index_is_rows(image, end, arity, seen.insert(row_id(fields), pos as u64));
        },
        _ => {},
    }
}

/// Mapping one more row at the end of the list maps its id last.
pub proof fn lemma_index_of_rows_push(seen: Map<i32, u64>, rows: Seq<StoredRow>, last: StoredRow)
    ensures
        index_of_rows(seen, rows.push(last)) == index_of_rows(seen, rows).insert(
            row_id(last.fields),
            last.begin as u64,
        ),
    decreases rows.len(),
{
    let more = rows.push(last);
    reveal_with_fuel(index_of_rows, 2);
    if rows.len() == 0 {
        assert(more.drop_first() =~= Seq::<StoredRow>::empty());
        assert(more[0] == last);
    } else {
        assert(more[0] == rows[0]);
        assert(more.drop_first() =~= rows.drop_first().push(last));
        lemma_index_of_rows_push(
            seen.insert(row_id(rows[0].fields), rows[0].begin as u64),
            rows.drop_first(),
            last,
        );
    }
}

/// An id that no row has is mapped as it was before the rows were mapped.
pub proof fn lemma_index_of_rows_absent(seen: Map<i32, u64>, rows: Seq<StoredRow>, id: i32)
    requires
        !holds_id(rows, id),
    ensures
        index_of_rows(seen, rows).contains_key(id) == seen.contains_key(id),
        seen.contains_key(id) ==> index_of_rows(seen, rows)[id] == seen[id],
    decreases rows.len(),
{
    if rows.len() > 0 {
        let rest = rows.drop_first();
        assert(row_id(rows[0].fields) != id);
        assert(!holds_id(rest, id)) by {
            assert forall|i: int| 0 <= i < rest.len() implies row_id(#[trigger] rest[i].fields)
                != id by {
                assert(rest[i] == rows[i + 1]);
            }
        }
        lemma_index_of_rows_absent(
            seen.insert(row_id(rows[0].fields), rows[0].begin as u64),
            rest,
            id,
        );
    }
}

/// In a list of rows with ids of their own, the id of each row is mapped to
/// the offset at which that row starts.
pub proof fn lemma_index_of_rows_present(seen: Map<i32, u64>, rows: Seq<StoredRow>, k: int)
    requires
        distinct_ids(rows),
        0 <= k < rows.len(),
    ensures
        index_of_rows(seen, rows).contains_key(row_id(rows[k].fields)),
        index_of_rows(seen, rows)[row_id(rows[k].fields)] == rows[k].begin as u64,
    decreases rows.len(),
{
    let rest = rows.drop_first();
    let next = seen.insert(row_id(rows[0].fields), rows[0].begin as u64);
    assert(distinct_ids(rest)) by {
        assert forall|i: int, j: int| 0 <= i < j < rest.len() implies row_id(
            #[trigger] rest[i].fields,
        ) != row_id(#[trigger] rest[j].fields) by {
            assert(rest[i] == rows[i + 1] && rest[j] == rows[j + 1]);
        }
    }
    if k == 0 {
        let id = row_id(rows[0].fields);
        assert(!holds_id(rest, id)) by {
            assert forall|i: int| 0 <= i < rest.len() implies row_id(#[trigger] rest[i].fields)
                != id by {
                assert(rest[i] == rows[i + 1]);
            }
        }
        lemma_index_of_rows_absent(next, rest, id);
    } else {
        assert(rest[k - 1] == rows[k]);
        lemma_index_of_rows_present(next, rest, k - 1);
    }
}

/// A selection from a clean image is the filter of its rows, in their
/// order; from an image with a corrupt row nothing is selected.
pub proof fn lemma_select_is_filter(
    image: Seq<u8>,
    pos: int,
    arity: nat,
    keep: spec_fn(Seq<Seq<u8>>) -> bool,
)
    requires
        0 <= pos <= image.len(),
    ensures
        select_from(image, pos, arity, keep) == (if parse_from(image, pos, arity).clean {
            Some(fields_of(parse_from(image, pos, arity).rows).filter(keep))
        } else {
            None
        }),
    decreases image.len() - pos,
{
    lemma_scan_bounds(image, pos, pos);
    match read_at(image, pos, arity) {
        ReadResult::Row { fields, end } => {
            let rows = parse_from(image, pos, arity).rows;
            let rest = parse_from(image, end, arity).rows;
            lemma_select_is_filter(image, end, arity, keep);
            assert(fields_of(rows) =~= seq![fields] + fields_of(rest));
            Seq::filter_distributes_over_add(seq![fields], fields_of(rest), keep);
            assert(seq![fields].filter(keep) =~= if keep(fields) {
                seq![fields]
            } else {
                Seq::empty()
            }) by {
                reveal_with_fuel(Seq::filter, 2);
                assert(seq![fields].drop_last() =~= Seq::<Seq<Seq<u8>>>::empty());
            }
            if parse_from(image, end, arity).clean && !keep(fields) {
                assert(Seq::<Seq<Seq<u8>>>::empty() + fields_of(rest).filter(keep) =~= fields_of(
                    rest,
                ).filter(keep));
            }
        },
        ReadResult::End => {
            assert(fields_of(Seq::<StoredRow>::empty()) =~= Seq::<Seq<Seq<u8>>>::empty());
            assert(Seq::<Seq<Seq<u8>>>::empty().filter(keep) =~= Seq::<Seq<Seq<u8>>>::empty()) by {
                reveal_with_fuel(Seq::filter, 1);
            }
        },
        ReadResult::Corrupt => {},
    }
}

/// A filter that every element passes keeps the list.
pub proof fn lemma_filter_all<A>(s: Seq<A>, keep: spec_fn(A) -> bool)
    requires
        forall|i: int| 0 <= i < s.len() ==> keep(#[trigger] s[i]),
    ensures
        s.filter(keep) == s,
    decreases s.len(),
{
    reveal_with_fuel(Seq::filter, 1);
    if s.len() > 0 {
        lemma_filter_all(s.drop_last(), keep);
        assert(s.drop_last().push(s.last()) =~= s);
    }
}

/// A selection with an empty filter returns every row of a clean image, in
/// the order in which the rows lie there.
pub proof fn lemma_select_all<S: TableSchema>(image: Seq<u8>)
    requires
        parse(image, arity::<S>()).clean,
    ensures
        select_from(image, 0, arity::<S>(), keeps::<S>(Seq::empty())) == Some(
            fields_of(parse(image, arity::<S>()).rows),
        ),
{
    let keep = keeps::<S>(Seq::empty());
    lemma_select_is_filter(image, 0, arity::<S>(), keep);
    let all = fields_of(parse(image, arity::<S>()).rows);
    assert forall|i: int| 0 <= i < all.len() implies keep(#[trigger] all[i]) by {
        assert(matches_filter(
            decode_values(S::spec_kinds(), all[i]),
            S::spec_fields(),
            Seq::empty(),
        ));
    }
    lemma_filter_all(all, keep);
}

/// A sound image that is read from a row's start ends where a row starts.
pub proof fn lemma_sound_end(image: Seq<u8>, pos: int, arity: nat)
    requires
        0 <= pos <= image.len(),
        at_row_start(image, pos),
        sound_from(image, pos, arity),
    ensures
        at_row_start(image, image.len() as int),
    decreases image.len() - pos,
{
    if pos < image.len() {
        lemma_sound_step(image, pos, arity);
        lemma_sound_end(image, scan_row(image, pos, pos).end, arity);
    }
}

/// What a table holds once a storable row is appended to a sound image: the
/// rows it held and then the new row, and the index that a scan builds has
/// the new row's id mapped to where the row starts.
pub proof fn lemma_appended(image: Seq<u8>, fields: Seq<Seq<u8>>, arity: nat)
    requires
        sound_from(image, 0, arity),
        storable(fields, arity),
    ensures
        sound_from(image + frame(fields), 0, arity),
        parse(image + frame(fields), arity).rows == parse(image, arity).rows.push(
            StoredRow {
                fields,
                begin: image.len() as int,
                end: (image.len() + frame(fields).len()) as int,
            },
        ),
        scanned_index(image + frame(fields), arity) == scanned_index(image, arity).insert(
            row_id(fields),
            image.len() as u64,
        ),
{
    let framed = frame(fields);
    let last = StoredRow {
        fields,
        begin: image.len() as int,
        end: (image.len() + framed.len()) as int,
    };
    lemma_parse_append(image, framed, fields, 0, arity);
    lemma_index_is_rows(image, 0, arity, Map::empty());
    lemma_index_is_rows(image + framed, 0, arity, Map::empty());
    lemma_index_of_rows_push(Map::empty(), parse(image, arity).rows, last);
}

/// A row that was created is found: after `create` has stored a storable
/// row in a sound table, `get` with the row's id returns what the row
/// holds.
pub proof fn lemma_created_row_is_found<S: TableSchema>(table: TableView, row: S)
    requires
        table.image.len() <= u64::MAX,
        sound_from(table.image, 0, arity::<S>()),
        frames_cleanly(encode_values(row.spec_values())),
        table.create(
            arity::<S>(),
            row_id(encode_values(row.spec_values())),
            row_frame(&row),
        ).1 is Ok,
    ensures
        table.create(
            arity::<S>(),
            row_id(encode_values(row.spec_values())),
            row_frame(&row),
        ).0.lookup(arity::<S>(), row_id(encode_values(row.spec_values()))) == Ok::<
            Seq<Seq<u8>>,
            Fault,
        >(encode_values(row.spec_values())),
        decode_values(S::spec_kinds(), encode_values(row.spec_values())) == row.spec_values(),
{
    let n = arity::<S>();
    let fields = encode_values(row.spec_values());
    let id = row_id(fields);
    let framed = frame(fields);
    let image = table.image;
    let whole = image + framed;
    row.lemma_row();
    S::lemma_schema();
    lemma_values_round_trip(row.spec_values(), S::spec_kinds());
    lemma_appended(image, fields, n);
    let rows = parse(image, n).rows;
    let more = parse(whole, n).rows;
    let k = rows.len() as int;
    assert(more[k].fields == fields && more[k].begin == image.len());
    match table.index {
        Some(map) => {
            lemma_read_parsed(whole, 0, n, k);
        },
        None => {
            lemma_find_is_first(image, 0, n, id);
            lemma_find_is_first(whole, 0, n, id);
            lemma_first_with_push(rows, more[k], id);
            assert(more =~= rows.push(more[k]));
        },
    }
}

/// An id is stored once: `create` of a row whose id `get` finds fails as a
/// duplicate and leaves the table as it was.
pub proof fn lemma_duplicate_is_refused(table: TableView, arity: nat, id: i32, framed: Seq<u8>)
    requires
        table.lookup(arity, id) is Ok,
    ensures
        table.create(arity, id, framed) == (table, Err::<i32, Fault>(duplicate())),
{
}

/// A table with an empty image whose index, if it has one, is consistent is
/// well-formed.
pub proof fn lemma_empty_table_is_well_formed(table: TableView, arity: nat)
    requires
        arity >= 1,
        table.image.len() == 0,
        consistent(table, arity),
    ensures
        well_formed(table, arity),
        parse(table.image, arity).rows.len() == 0,
{
}

/// `get` on a table with an empty image finds nothing, whatever the id.
pub proof fn lemma_empty_table_has_no_rows(table: TableView, arity: nat, id: i32)
    requires
        table.image.len() == 0,
        consistent(table, arity),
    ensures
        table.lookup(arity, id) == Err::<Seq<Seq<u8>>, Fault>(missing()),
{
}

/// A row that was deleted is gone: after `delete` has removed a row from a
/// well-formed table, `get` with its id finds nothing.
pub proof fn lemma_deleted_row_is_gone(table: TableView, arity: nat, id: i32)
    requires
        well_formed(table, arity),
        table.delete(arity, id).1 is Ok,
    ensures
        table.delete(arity, id).0.lookup(arity, id) == Err::<Seq<Seq<u8>>, Fault>(
            missing(),
        ),
        well_formed(table.delete(arity, id).0, arity),
{
    lemma_delete_keeps_well_formed(table, arity, id);
    let after = table.delete(arity, id).0;
    let rows = parse(table.image, arity).rows;
    let left = parse(after.image, arity).rows;
    lemma_find_is_first(table.image, 0, arity, id);
    lemma_first_with(rows, id);
    let k = first_with(rows, id)->0;
    assert(fields_of(left).len() == left.len());
    assert(fields_of(rows).len() == rows.len());
    assert(fields_of(rows).remove(k).len() == rows.len() - 1);
    assert(!holds_id(left, id)) by {
        assert forall|i: int| 0 <= i < left.len() implies row_id(#[trigger] left[i].fields)
            != id by {
            assert(fields_of(left)[i] == left[i].fields);
            if i < k {
                assert(fields_of(rows).remove(k)[i] == fields_of(rows)[i]);
                assert(left[i].fields == rows[i].fields);
            } else {
                assert(fields_of(rows).remove(k)[i] == fields_of(rows)[i + 1]);
                assert(left[i].fields == rows[i + 1].fields);
                assert(row_id(rows[k].fields) != row_id(rows[i + 1].fields));
            }
        }
    }
    lemma_find_is_first(after.image, 0, arity, id);
    lemma_first_with(left, id);
    lemma_index_is_rows(after.image, 0, arity, Map::empty());
    lemma_index_of_rows_absent(Map::empty(), left, id);
}

/// `delete` of an id that no row of a clean image has fails as not found
/// and leaves the table as it was.
pub proof fn lemma_delete_absent(table: TableView, arity: nat, id: i32)
    requires
        parse(table.image, arity).clean,
        !holds_id(parse(table.image, arity).rows, id),
    ensures
        table.delete(arity, id) == (table, Err::<(), Fault>(absent())),
{
    lemma_find_is_first(table.image, 0, arity, id);
    lemma_first_with(parse(table.image, arity).rows, id);
}

/// `create` keeps a table well-formed: where it stores a storable row, the
/// table then holds the rows it held and the new row behind them, and its
/// index is still the index that a scan builds.
pub proof fn lemma_create_keeps_well_formed(table: TableView, arity: nat, fields: Seq<Seq<u8>>)
    requires
        well_formed(table, arity),
        storable(fields, arity),
        table.image.len() + frame(fields).len() <= u64::MAX,
    ensures
        well_formed(table.create(arity, row_id(fields), frame(fields)).0, arity),
        table.create(arity, row_id(fields), frame(fields)).1 is Ok ==> parse(
            table.create(arity, row_id(fields), frame(fields)).0.image,
            arity,
        ).rows == parse(table.image, arity).rows.push(
            StoredRow {
                fields,
                begin: table.image.len() as int,
                end: (table.image.len() + frame(fields).len()) as int,
            },
        ),
        table.create(arity, row_id(fields), frame(fields)).1 is Err ==> table.create(
            arity,
            row_id(fields),
            frame(fields),
        ).0 == table,
{
    let id = row_id(fields);
    let image = table.image;
    let rows = parse(image, arity).rows;
    if table.create(arity, id, frame(fields)).1 is Ok {
        lemma_appended(image, fields, arity);
        let more = parse(image + frame(fields), arity).rows;
        lemma_find_is_first(image, 0, arity, id);
        lemma_first_with(rows, id);
        lemma_index_is_rows(image, 0, arity, Map::empty());
        assert(!holds_id(rows, id)) by {
            if holds_id(rows, id) {
                let i = choose|i: int| 0 <= i < rows.len() && row_id(#[trigger] rows[i].fields)
                    == id;
                lemma_index_of_rows_present(Map::empty(), rows, i);
            }
        }
        assert(distinct_ids(more)) by {
            assert forall|i: int, j: int| 0 <= i < j < more.len() implies row_id(
                #[trigger] more[i].fields,
            ) != row_id(#[trigger] more[j].fields) by {
                assert(more[i] == rows[i]);
                if j < rows.len() {
                    assert(more[j] == rows[j]);
                }
            }
        }
    }
}

/// `delete` keeps a table well-formed: where it removes a row, the table
/// then holds the other rows in their order, and its index is the index
/// that a scan builds.
pub proof fn lemma_delete_keeps_well_formed(table: TableView, arity: nat, id: i32)
    requires
        well_formed(table, arity),
    ensures
        well_formed(table.delete(arity, id).0, arity),
        table.delete(arity, id).1 is Err ==> table.delete(arity, id).0 == table,
        table.delete(arity, id).1 is Ok ==> first_with(parse(table.image, arity).rows, id) is Some
            && fields_of(parse(table.delete(arity, id).0.image, arity).rows) == fields_of(
            parse(table.image, arity).rows,
        ).remove(first_with(parse(table.image, arity).rows, id)->0),
{
    let image = table.image;
    let rows = parse(image, arity).rows;
    lemma_find_is_first(image, 0, arity, id);
    lemma_first_with(rows, id);
    match first_with(rows, id) {
        Some(k) => {
            lemma_parse_erase(image, 0, arity, k);
            let gone = rows[k];
            let less = erased(image, gone.begin, gone.end);
            assert(less == image.take(gone.begin) + image.skip(gone.end));
            let left = parse(less, arity).rows;
            assert(left == rows.take(k) + moved(rows.skip(k + 1), gone.begin - gone.end));
            assert forall|i: int| 0 <= i < left.len() implies #[trigger] left[i].fields == rows[if i
                < k {
                i
            } else {
                i + 1
            }].fields by {}
            assert(distinct_ids(left)) by {
                assert forall|i: int, j: int| 0 <= i < j < left.len() implies row_id(
                    #[trigger] left[i].fields,
                ) != row_id(#[trigger] left[j].fields) by {
                    let a = if i < k {
                        i
                    } else {
                        i + 1
                    };
                    let b = if j < k {
                        j
                    } else {
                        j + 1
                    };
                    assert(left[i].fields == rows[a].fields);
                    assert(left[j].fields == rows[b].fields);
                    assert(row_id(rows[a].fields) != row_id(rows[b].fields));
                }
            }
            assert(fields_of(left) =~= fields_of(rows).remove(k));
        },
        None => {},
    }
}

/// The index of a well-formed table leads to the row that a scan finds:
/// `get` returns the same with the index as without it.
pub proof fn lemma_index_agrees_with_scan(table: TableView, arity: nat, id: i32)
    requires
        well_formed(table, arity),
    ensures
        table.lookup(arity, id) == (TableView { image: table.image, index: None }).lookup(
            arity,
            id,
        ),
{
    let image = table.image;
    let rows = parse(image, arity).rows;
    lemma_find_is_first(image, 0, arity, id);
    lemma_first_with(rows, id);
    lemma_index_is_rows(image, 0, arity, Map::empty());
    match table.index {
        Some(map) => {
            match first_with(rows, id) {
                Some(k) => {
                    lemma_index_of_rows_present(Map::empty(), rows, k);
                    lemma_read_parsed(image, 0, arity, k);
                },
                None => {
                    lemma_index_of_rows_absent(Map::empty(), rows, id);
                },
            }
        },
        None => {},
    }
}

/// In a well-formed table `get` returns the row with the id, and fails as
/// not found where no row has it: what is found depends on the rows alone.
pub proof fn lemma_lookup_is_row(table: TableView, arity: nat, id: i32)
    requires
        well_formed(table, arity),
    ensures
        table.lookup(arity, id) == match first_with(parse(table.image, arity).rows, id) {
            Some(k) => Ok::<Seq<Seq<u8>>, Fault>(parse(table.image, arity).rows[k].fields),
            None => Err::<Seq<Seq<u8>>, Fault>(missing()),
        },
{
    lemma_index_agrees_with_scan(table, arity, id);
    lemma_find_is_first(table.image, 0, arity, id);
}

/// A table whose index was just built by a scan is consistent.
pub proof fn lemma_rebuilt_is_consistent(table: TableView, arity: nat)
    ensures
        consistent(table.rebuilt(arity), arity),
{
}

} // verus!
