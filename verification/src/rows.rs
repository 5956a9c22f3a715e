//! Helpers for row types: the work that every implementation of
//! `TableSchema` shares, done over a row's values as a list of tagged
//! values.

use crate::datatypes::{decode_values, encode_values, DType, Kind, Value};
use crate::framing::same_bytes;
use crate::table::{pair_bytes, pair_names, texts, value_names, value_views};
use vstd::prelude::*;

verus! {

/// What a list of tagged values holds.
pub open spec fn dtype_views(values: Seq<DType>) -> Seq<Value> {
    Seq::new(values.len(), |i: int| values[i]@)
}

/// A name that occurs once in a list is found at its place.
pub proof fn lemma_column(names: Seq<Seq<char>>, i: int)
    requires
        names.no_duplicates(),
        0 <= i < names.len(),
    ensures
        names.contains(names[i]),
        names.index_of(names[i]) == i,
{
    assert(names.contains(names[i]));
    let k = names.index_of(names[i]);
    assert(0 <= k < names.len() && names[k] == names[i]);
}

/// Whether two strings hold the same text.
pub fn same_text(a: &str, b: &str) -> (r: bool)
    ensures
        r == (a@ == b@),
{
    let r = same_bytes(a.as_bytes(), b.as_bytes());
    proof {
        vstd::utf8::encode_utf8_decode_utf8(a@);
        vstd::utf8::encode_utf8_decode_utf8(b@);
    }
    r
}

/// The values that a list of named fields holds, given the kind of each.
pub fn decode_fields(kinds: &Vec<Kind>, raw: &Vec<(String, Vec<u8>)>) -> (values: Vec<DType>)
    requires
        raw@.len() == kinds@.len(),
    ensures
        dtype_views(values@) == decode_values(kinds@, pair_bytes(raw@)),
{
    let n = kinds.len();
    let mut values: Vec<DType> = Vec::new();
    let mut i: usize = 0;
    while i < n
        invariant
            n == kinds@.len(),
            n == raw@.len(),
            i <= n,
            values@.len() == i,
            forall|k: int|
                0 <= k < i ==> (#[trigger] values@[k])@ == decode_values(
                    kinds@,
                    pair_bytes(raw@),
                )[k],
        decreases n - i,
    {
        values.push(DType::decode(kinds[i], raw[i].1.as_slice()));
        i = i + 1;
    }
    assert(dtype_views(values@) =~= decode_values(kinds@, pair_bytes(raw@)));
    values
}

/// Each name with the bytes of the value at the same place.
pub fn encode_fields(names: Vec<String>, values: &Vec<DType>) -> (raw: Vec<(String, Vec<u8>)>)
    requires
        names@.len() == values@.len(),
    ensures
        pair_names(raw@) == texts(names@),
        pair_bytes(raw@) == encode_values(dtype_views(values@)),
{
    let n = names.len();
    let mut raw: Vec<(String, Vec<u8>)> = Vec::new();
    let mut i: usize = 0;
    while i < n
        invariant
            n == names@.len(),
            n == values@.len(),
            i <= n,
            raw@.len() == i,
            forall|k: int|
                0 <= k < i ==> (#[trigger] raw@[k]).0@ == names@[k]@ && raw@[k].1@
                    == crate::datatypes::encode_value(values@[k]@),
        decreases n - i,
    {
        raw.push((names[i].clone(), values[i].serialize()));
        i = i + 1;
    }
    assert(pair_names(raw@) =~= texts(names@));
    assert(pair_bytes(raw@) =~= encode_values(dtype_views(values@)));
    raw
}

/// Each name with the value at the same place.
pub fn name_values(names: Vec<String>, values: &Vec<DType>) -> (pairs: Vec<(String, DType)>)
    requires
        names@.len() == values@.len(),
    ensures
        value_names(pairs@) == texts(names@),
        value_views(pairs@) == dtype_views(values@),
{
    let n = names.len();
    let mut pairs: Vec<(String, DType)> = Vec::new();
    let mut i: usize = 0;
    while i < n
        invariant
            n == names@.len(),
            n == values@.len(),
            i <= n,
            pairs@.len() == i,
            forall|k: int|
                0 <= k < i ==> (#[trigger] pairs@[k]).0@ == names@[k]@ && pairs@[k].1@
                    == values@[k]@,
        decreases n - i,
    {
        pairs.push((names[i].clone(), values[i].clone()));
        i = i + 1;
    }
    assert(value_names(pairs@) =~= texts(names@));
    assert(value_views(pairs@) =~= dtype_views(values@));
    pairs
}

/// The value at the place of the name, or `None` where the name is not in
/// the list.
pub fn value_named(names: &Vec<String>, values: &Vec<DType>, field: &String) -> (value: Option<
    DType,
>)
    requires
        names@.len() == values@.len(),
        texts(names@).no_duplicates(),
    ensures
        match value {
            Some(v) => texts(names@).contains(field@) && v@ == dtype_views(values@)[texts(
                names@,
            ).index_of(field@)],
            None => !texts(names@).contains(field@),
        },
{
    let n = names.len();
    let mut i: usize = 0;
    while i < n
        invariant
            n == names@.len(),
            n == values@.len(),
            i <= n,
            texts(names@).no_duplicates(),
            forall|k: int| 0 <= k < i ==> texts(names@)[k] != field@,
        decreases n - i,
    {
        if same_text(names[i].as_str(), field.as_str()) {
            proof {
                assert(texts(names@)[i as int] == field@);
                lemma_column(texts(names@), i as int);
            }
            return Some(values[i].clone());
        }
        i = i + 1;
    }
    None
}

} // verus!
