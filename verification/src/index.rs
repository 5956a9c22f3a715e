//! The primary index: a sorted map from row id to the byte offset at which
//! the row starts, mirrored into an image of twelve-byte records.
//!
//! A record is the id (four bytes) followed by the offset (eight bytes),
//! both in native byte order.  Every change of the map rewrites the whole
//! image in ascending order of id, so the image is always a complete
//! snapshot of the map.

use crate::bytes::{
    i32_bytes, i32_from_slice, i32_to_vec, i32_value, lemma_i32_bytes_of_value,
    lemma_i32_round_trip, lemma_u64_bytes_of_value, lemma_u64_round_trip, u64_bytes,
    u64_from_slice, u64_to_vec, u64_value,
};
use crate::error::Error;
use std::cmp::Ordering;
use std::collections::BTreeMap;
use vstd::prelude::*;
use vstd::slice::slice_subrange;
use vstd::std_specs::btree::{increasing_seq, spec_btree_map_iter};
use vstd::std_specs::cmp::OrdSpec;
use vstd::std_specs::iter::IteratorSpec;

verus! {

/// Length of one record of the index image.
pub const RECORD_SIZE: usize = 12;

/// The bytes of one record.
pub open spec fn record_bytes(entry: (i32, u64)) -> Seq<u8> {
    i32_bytes(entry.0) + u64_bytes(entry.1)
}

/// The record that twelve bytes hold.
pub open spec fn record_of(bytes: Seq<u8>) -> (i32, u64) {
    (i32_value(bytes.subrange(0, 4)), u64_value(bytes.subrange(4, 12)))
}

/// The image of a list of entries: their records, one after another.
pub open spec fn encode_entries(entries: Seq<(i32, u64)>) -> Seq<u8>
    decreases entries.len(),
{
    if entries.len() == 0 {
        Seq::empty()
    } else {
        encode_entries(entries.drop_last()) + record_bytes(entries.last())
    }
}

/// The whole records of an image, in the order they lie there.
pub open spec fn records(image: Seq<u8>) -> Seq<(i32, u64)> {
    Seq::new(image.len() / 12, |i: int| record_of(image.subrange(12 * i, 12 * i + 12)))
}

/// `map` after the entries were put into it one by one: of two entries
/// with the same id the later one stays.
pub open spec fn apply_entries(map: Map<i32, u64>, entries: Seq<(i32, u64)>) -> Map<i32, u64>
    decreases entries.len(),
{
    if entries.len() == 0 {
        map
    } else {
        apply_entries(map, entries.drop_last()).insert(entries.last().0, entries.last().1)
    }
}

/// The ids of `entries` ascend strictly.
pub open spec fn ascending(entries: Seq<(i32, u64)>) -> bool {
    forall|i: int, j: int| 0 <= i < j < entries.len() ==> entries[i].0 < entries[j].0
}

/// `entries` are the pairs of `map`, each once.
pub open spec fn lists_map(entries: Seq<(i32, u64)>, map: Map<i32, u64>) -> bool {
    &&& forall|i: int|
        0 <= i < entries.len() ==> map.contains_key(#[trigger] entries[i].0) && map[entries[i].0]
            == entries[i].1
    &&& forall|k: i32| #[trigger]
        map.contains_key(k) ==> exists|i: int| 0 <= i < entries.len() && entries[i].0 == k
}

/// `image` is a complete snapshot of `map`: it consists of whole records
/// that ascend by id and list exactly the pairs of `map`.
pub open spec fn is_snapshot(image: Seq<u8>, map: Map<i32, u64>) -> bool {
    &&& image.len() % 12 == 0
    &&& ascending(records(image))
    &&& lists_map(records(image), map)
}

pub proof fn lemma_encode_entries_len(entries: Seq<(i32, u64)>)
    ensures
        encode_entries(entries).len() == 12 * entries.len(),
    decreases entries.len(),
{
    if entries.len() > 0 {
        lemma_encode_entries_len(entries.drop_last());
        lemma_i32_round_trip(entries.last().0);
        lemma_u64_round_trip(entries.last().1);
    }
}

/// Reading the records of an encoded list gives the list back.
pub proof fn lemma_records_of_encoded(entries: Seq<(i32, u64)>)
    ensures
        records(encode_entries(entries)) == entries,
    decreases entries.len(),
{
    let image = encode_entries(entries);
    lemma_encode_entries_len(entries);
    if entries.len() > 0 {
        let front = entries.drop_last();
        let last = entries.last();
        lemma_records_of_encoded(front);
        lemma_encode_entries_len(front);
        lemma_i32_round_trip(last.0);
        lemma_u64_round_trip(last.1);
        let head = encode_entries(front);
        assert(image == head + record_bytes(last));
        assert forall|i: int| 0 <= i < entries.len() implies records(image)[i] == entries[i] by {
            if i < front.len() {
                assert(image.subrange(12 * i, 12 * i + 12) =~= head.subrange(12 * i, 12 * i + 12));
                assert(records(head)[i] == front[i]);
            } else {
                let rec = image.subrange(12 * i, 12 * i + 12);
                assert(rec =~= record_bytes(last));
                assert(rec.subrange(0, 4) =~= i32_bytes(last.0));
                assert(rec.subrange(4, 12) =~= u64_bytes(last.1));
            }
        }
        assert(records(image) =~= entries);
    } else {
        assert(records(image) =~= entries);
    }
}

/// Putting an ascending list of the pairs of a map into the empty map
/// gives the map.
pub proof fn lemma_apply_listed(entries: Seq<(i32, u64)>, map: Map<i32, u64>)
    requires
        ascending(entries),
        lists_map(entries, map),
    ensures
        apply_entries(Map::empty(), entries) == map,
    decreases entries.len(),
{
    if entries.len() == 0 {
        assert(map =~= Map::empty()) by {
            assert forall|k: i32| !map.contains_key(k) by {
                if map.contains_key(k) {
                    let i = choose|i: int| 0 <= i < entries.len() && entries[i].0 == k;
                }
            }
        }
    } else {
        let last = entries.last();
        let less = map.remove(last.0);
        lemma_listing_without_last(entries, map);
        lemma_apply_listed(entries.drop_last(), less);
        assert(map.contains_key(entries[entries.len() - 1].0));
        assert(less.insert(last.0, last.1) =~= map);
    }
}

/// Whole records are the image of the entries they hold.
pub proof fn lemma_encoded_records(image: Seq<u8>)
    requires
        image.len() % 12 == 0,
    ensures
        encode_entries(records(image)) == image,
    decreases image.len(),
{
    let all = records(image);
    if image.len() == 0 {
        assert(encode_entries(all) =~= image);
    } else {
        let n = image.len() / 12;
        let front = image.take(image.len() - 12);
        let chunk = image.subrange(image.len() - 12, image.len() as int);
        lemma_encoded_records(front);
        assert(records(front) =~= all.drop_last()) by {
            assert forall|i: int| 0 <= i < n - 1 implies records(front)[i] == all[i] by {
                assert(front.subrange(12 * i, 12 * i + 12) =~= image.subrange(12 * i, 12 * i + 12));
            }
        }
        assert(all.last() == record_of(chunk)) by {
            assert(image.subrange(12 * (n - 1), 12 * (n - 1) + 12) =~= chunk);
        }
        lemma_i32_bytes_of_value(chunk.subrange(0, 4));
        lemma_u64_bytes_of_value(chunk.subrange(4, 12));
        assert(record_bytes(record_of(chunk)) =~= chunk);
        assert(front + chunk =~= image);
    }
}

/// A map has one ascending list of its pairs.
pub proof fn lemma_listing_unique(a: Seq<(i32, u64)>, b: Seq<(i32, u64)>, map: Map<i32, u64>)
    requires
        ascending(a),
        lists_map(a, map),
        ascending(b),
        lists_map(b, map),
    ensures
        a == b,
    decreases a.len(),
{
    if a.len() == 0 {
        if b.len() > 0 {
            assert(map.contains_key(b[0].0));
            let i = choose|i: int| 0 <= i < a.len() && a[i].0 == b[0].0;
        }
        assert(a =~= b);
    } else {
        let key = a[a.len() - 1].0;
        assert(map.contains_key(key));
        let j = choose|j: int| 0 <= j < b.len() && b[j].0 == key;
        let top = b[b.len() - 1].0;
        assert(map.contains_key(top));
        let i = choose|i: int| 0 <= i < a.len() && a[i].0 == top;
        assert(a[i].0 <= key) by {
            if i < a.len() - 1 {
                assert(a[i].0 < a[a.len() - 1].0);
            }
        }
        assert(j == b.len() - 1) by {
            if j < b.len() - 1 {
                assert(b[j].0 < b[b.len() - 1].0);
            }
        }
        assert(a.last() == b.last());
        let less = map.remove(key);
        lemma_listing_without_last(a, map);
        lemma_listing_without_last(b, map);
        lemma_listing_unique(a.drop_last(), b.drop_last(), less);
        assert(a =~= a.drop_last().push(a.last()));
        assert(b =~= b.drop_last().push(b.last()));
    }
}

/// An ascending list of the pairs of a map, without its last pair, lists
/// the map without the key of that pair.
proof fn lemma_listing_without_last(entries: Seq<(i32, u64)>, map: Map<i32, u64>)
    requires
        entries.len() > 0,
        ascending(entries),
        lists_map(entries, map),
    ensures
        ascending(entries.drop_last()),
        lists_map(entries.drop_last(), map.remove(entries.last().0)),
{
    let front = entries.drop_last();
    let last = entries.last();
    let less = map.remove(last.0);
    assert forall|i: int| 0 <= i < front.len() implies less.contains_key(#[trigger] front[i].0)
        && less[front[i].0] == front[i].1 by {
        assert(front[i] == entries[i]);
        assert(entries[i].0 < entries[entries.len() - 1].0);
    }
    assert forall|k: i32| #[trigger] less.contains_key(k) implies exists|i: int|
        0 <= i < front.len() && front[i].0 == k by {
        assert(map.contains_key(k));
        let i = choose|i: int| 0 <= i < entries.len() && entries[i].0 == k;
        assert(i < front.len());
        assert(front[i] == entries[i]);
    }
    assert forall|i: int, j: int| 0 <= i < j < front.len() implies front[i].0 < front[j].0 by {
        assert(front[i] == entries[i] && front[j] == entries[j]);
    }
}

/// A map has one snapshot: the image that `dump` leaves is determined by
/// the map.
pub proof fn lemma_snapshot_unique(x: Seq<u8>, y: Seq<u8>, map: Map<i32, u64>)
    requires
        is_snapshot(x, map),
        is_snapshot(y, map),
    ensures
        x == y,
{
    lemma_listing_unique(records(x), records(y), map);
    lemma_encoded_records(x);
    lemma_encoded_records(y);
}

/// Loading a snapshot into an empty index gives the map it was taken of.
pub proof fn lemma_snapshot_loads(image: Seq<u8>, map: Map<i32, u64>)
    requires
        is_snapshot(image, map),
    ensures
        apply_entries(Map::empty(), records(image)) == map,
{
    lemma_apply_listed(records(image), map);
}

/// The primary index of one table.
pub struct TableIndex {
    tree: BTreeMap<i32, u64>,
    image: Vec<u8>,
}

impl View for TableIndex {
    type V = Map<i32, u64>;

    closed spec fn view(&self) -> Map<i32, u64> {
        self.tree@
    }
}

impl TableIndex {
    /// The bytes of the index image.
    pub closed spec fn image_view(&self) -> Seq<u8> {
        self.image@
    }

    /// Whether the image is a complete snapshot of the map.
    pub open spec fn in_sync(&self) -> bool {
        is_snapshot(self.image_view(), self@)
    }

    /// An index over the image of an index file, with the records of the
    /// image loaded.  The image of a missing file is empty.
    pub fn new(image: Vec<u8>) -> (r: Result<TableIndex, Error>)
        requires
            image@.len() % 12 == 0,
        ensures
            r matches Ok(index) && index.image_view() == image@ && index@ == apply_entries(
                Map::empty(),
                records(image@),
            ),
    {
        let mut index = TableIndex { tree: BTreeMap::new(), image };
        index.load();
        Ok(index)
    }

    /// Puts every record of the image into the map, in the order of the
    /// image.
    pub fn load(&mut self)
        requires
            old(self).image_view().len() % 12 == 0,
        ensures
            final(self).image_view() == old(self).image_view(),
            final(self)@ == apply_entries(old(self)@, records(old(self).image_view())),
    {
        let n = self.image.len() / RECORD_SIZE;
        let mut i: usize = 0;
        while i < n
            invariant
                self.image@ == old(self).image@,
                n == self.image@.len() / 12,
                self.image@.len() % 12 == 0,
                self.image@.len() <= usize::MAX,
                i <= n,
                self.tree@ == apply_entries(old(self).tree@, records(self.image@).take(i as int)),
            decreases n - i,
        {
            assert(12 * i + 12 <= 12 * n <= self.image@.len());
            let at = i * RECORD_SIZE;
            let id = i32_from_slice(slice_subrange(self.image.as_slice(), at, at + 4));
            let pos = u64_from_slice(slice_subrange(self.image.as_slice(), at + 4, at + 12));
            insert_entry(&mut self.tree, id, pos);
            proof {
                let all = records(self.image@);
                let rec = self.image@.subrange(12 * i, 12 * i + 12);
                assert(rec.subrange(0, 4) =~= self.image@.subrange(at as int, at + 4));
                assert(rec.subrange(4, 12) =~= self.image@.subrange(at + 4, at + 12));
                assert(all[i as int] == (id, pos));
                assert(all.take(i + 1).drop_last() =~= all.take(i as int));
                assert(all.take(i + 1).last() == all[i as int]);
            }
            i = i + 1;
        }
        proof {
            let all = records(self.image@);
            assert(all.take(n as int) =~= all);
        }
    }

    /// Rewrites the image as a snapshot of the map.
    pub fn dump(&mut self)
        ensures
            final(self)@ == old(self)@,
            final(self).in_sync(),
    {
        let entries = sorted_entries(&self.tree);
        self.image.clear();
        let n = entries.len();
        let mut i: usize = 0;
        while i < n
            invariant
                n == entries@.len(),
                i <= n,
                self.tree@ == old(self).tree@,
                self.image@ == encode_entries(entries@.take(i as int)),
            decreases n - i,
        {
            let ghost before = self.image@;
            let entry = entries[i];
            let id = i32_to_vec(entry.0);
            let pos = u64_to_vec(entry.1);
            self.image.extend_from_slice(id.as_slice());
            self.image.extend_from_slice(pos.as_slice());
            proof {
                assert(self.image@ =~= before + record_bytes(entry));
                assert(entries@.take(i + 1).drop_last() =~= entries@.take(i as int));
                assert(entries@.take(i + 1).last() == entry);
            }
            i = i + 1;
        }
        proof {
            assert(entries@.take(n as int) =~= entries@);
            lemma_records_of_encoded(entries@);
            lemma_encode_entries_len(entries@);
        }
    }

    /// Whether `id` is mapped.
    pub fn contains(&self, id: i32) -> (r: bool)
        ensures
            r == self@.contains_key(id),
    {
        contains_entry(&self.tree, id)
    }

    pub fn get(&self, id: i32) -> (r: Option<u64>)
        ensures
            r == (if self@.contains_key(id) {
                Some(self@[id])
            } else {
                None
            }),
    {
        get_entry(&self.tree, id)
    }

    /// Maps `id` to `pos`, in place of what it was mapped to, and rewrites
    /// the image.
    pub fn set(&mut self, id: i32, pos: u64)
        ensures
            final(self)@ == old(self)@.insert(id, pos),
            final(self).in_sync(),
    {
        insert_entry(&mut self.tree, id, pos);
        self.dump();
    }

    /// Removes `id` and rewrites the image; returns what `id` was mapped to.
    pub fn delete(&mut self, id: i32) -> (r: Option<u64>)
        ensures
            final(self)@ == old(self)@.remove(id),
            final(self).in_sync(),
            r == (if old(self)@.contains_key(id) {
                Some(old(self)@[id])
            } else {
                None
            }),
    {
        let result = remove_entry(&mut self.tree, id);
        self.dump();
        result
    }

    /// Removes every entry and rewrites the image.
    pub fn clear(&mut self)
        ensures
            final(self)@ == Map::<i32, u64>::empty(),
            final(self).in_sync(),
    {
        self.tree.clear();
        self.dump();
    }

    /// Number of entries.
    pub fn len(&self) -> (n: usize)
        ensures
            n == self@.len(),
    {
        self.tree.len()
    }

    /// The index image, for whoever keeps the index file.
    pub fn image(&self) -> (bytes: &Vec<u8>)
        ensures
            bytes@ == self.image_view(),
    {
        &self.image
    }
}

/// `BTreeMap::insert` on integer keys.
fn insert_entry(tree: &mut BTreeMap<i32, u64>, id: i32, pos: u64)
    ensures
        final(tree)@ == old(tree)@.insert(id, pos),
{
    broadcast use vstd::laws_cmp::group_laws_cmp;

    tree.insert(id, pos);
}

/// `BTreeMap::contains_key` on integer keys.
fn contains_entry(tree: &BTreeMap<i32, u64>, id: i32) -> (r: bool)
    ensures
        r == tree@.contains_key(id),
{
    broadcast use vstd::laws_cmp::group_laws_cmp;

    tree.contains_key(&id)
}

/// `BTreeMap::get` on integer keys.
fn get_entry(tree: &BTreeMap<i32, u64>, id: i32) -> (r: Option<u64>)
    ensures
        r == (if tree@.contains_key(id) {
            Some(tree@[id])
        } else {
            None
        }),
{
    broadcast use vstd::laws_cmp::group_laws_cmp;

    match tree.get(&id) {
        Some(pos) => Some(*pos),
        None => None,
    }
}

/// `BTreeMap::remove` on integer keys.
fn remove_entry(tree: &mut BTreeMap<i32, u64>, id: i32) -> (r: Option<u64>)
    ensures
        final(tree)@ == old(tree)@.remove(id),
        r == (if old(tree)@.contains_key(id) {
            Some(old(tree)@[id])
        } else {
            None
        }),
{
    broadcast use vstd::laws_cmp::group_laws_cmp;

    tree.remove(&id)
}

proof fn lemma_take_all<A>(s: Seq<A>)
    ensures
        s.take(s.len() as int) == s,
{
    assert(s.take(s.len() as int) =~= s);
}

/// The entries of the map in ascending order of id.
#[verifier::loop_isolation(false)]
fn sorted_entries(tree: &BTreeMap<i32, u64>) -> (entries: Vec<(i32, u64)>)
    ensures
        ascending(entries@),
        lists_map(entries@, tree@),
{
    broadcast use vstd::laws_cmp::group_laws_cmp;
    broadcast use vstd::std_specs::btree::group_btree_axioms;

    let mut entries: Vec<(i32, u64)> = Vec::new();
    for pair in it: tree.iter()
        invariant
            entries@ == it.seq().take(it.index()).unref(),
            it.seq() == spec_btree_map_iter(tree).remaining(),
            increasing_seq(it.seq().map_values(|kv: (&i32, &u64)| *kv.0)),
    {
        entries.push((*pair.0, *pair.1));
        proof {
            let k = it.index();
            assert(it.seq().take(k + 1).unref() =~= it.seq().take(k).unref().push(
                (*it.seq()[k].0, *it.seq()[k].1),
            ));
        }
    }
    proof {
        let v = spec_btree_map_iter(tree).remaining();
        let keys = v.map_values(|kv: (&i32, &u64)| *kv.0);
        lemma_take_all(v);
        assert(entries@ == v.unref());
        assert forall|i: int, j: int| 0 <= i < j < entries@.len() implies entries@[i].0
            < entries@[j].0 by {
            assert(keys[i].cmp_spec(&keys[j]) is Less);
        }
        assert forall|i: int| 0 <= i < entries@.len() implies tree@.contains_key(
            #[trigger] entries@[i].0,
        ) && tree@[entries@[i].0] == entries@[i].1 by {
            assert(tree@.contains_key(*v[i].0) && tree@[*v[i].0] == *v[i].1);
        }
        assert forall|k: i32| #[trigger] tree@.contains_key(k) implies exists|i: int|
            0 <= i < entries@.len() && entries@[i].0 == k by {
            assert(v.contains((&k, &tree@[k])));
            let i = choose|i: int| 0 <= i < v.len() && v[i] == (&k, &tree@[k]);
            assert(entries@[i].0 == k);
        }
    }
    entries
}

} // verus!
