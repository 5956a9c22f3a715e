//! The field codec: one type per kind of field, each with a fixed binary
//! encoding and a decoder that never fails.
//!
//! * `Int`: four bytes, a 32-bit signed integer in native byte order.
//! * `Str`: the UTF-8 bytes of a string.
//! * `DateTime`: eight bytes, signed nanoseconds since the epoch in native
//!   byte order.
//!
//! Decoding is lenient: bytes of the wrong length decode to zero, and bytes
//! that are not UTF-8 decode to the text `#!ERR`.

use crate::bytes::{
    i32_bytes, i32_from_slice, i32_to_vec, i32_value, i64_bytes, i64_from_slice, i64_to_vec,
    i64_value, lemma_i32_round_trip, lemma_i64_round_trip,
};
use chrono::NaiveDateTime;
use std::string::FromUtf8Error;
use vstd::prelude::*;
use vstd::slice::slice_to_vec;
use vstd::std_specs::cmp::PartialEqSpecImpl;
use vstd::string::StringExecFns;
use vstd::utf8::{decode_utf8, encode_utf8, valid_utf8};

verus! {

/// Nanoseconds in a second.
pub const NANOS_PER_SECOND: i64 = 1_000_000_000;

/// `chrono::NaiveDateTime`: a date and time of day without a time zone.
#[verifier::external_type_specification]
#[verifier::external_body]
pub struct ExNaiveDateTime(NaiveDateTime);

/// `std::string::FromUtf8Error`: why bytes were not accepted as UTF-8.
#[verifier::external_type_specification]
#[verifier::external_body]
pub struct ExFromUtf8Error(FromUtf8Error);

/// The nanoseconds from the epoch to `dt`, where a 64-bit signed integer can
/// hold them: what chrono's `timestamp_nanos_opt` returns.
pub uninterp spec fn naive_nanos(dt: NaiveDateTime) -> Option<i64>;

/// `NaiveDateTime::and_utc` followed by `DateTime::timestamp_nanos_opt`: the
/// nanoseconds from the epoch to `dt`, or `None` where they do not fit.
#[verifier::external_body]
pub(crate) fn nanos_of_naive(dt: &NaiveDateTime) -> (r: Option<i64>)
    ensures
        r == naive_nanos(*dt),
{
    dt.and_utc().timestamp_nanos_opt()
}

/// `NaiveDateTime::from_timestamp`: the date and time that lies `secs` whole
/// seconds and `nsecs` nanoseconds after the epoch.  For a nanosecond part
/// below one second and a total that a 64-bit integer holds, chrono accepts
/// the pair, and the nanoseconds of the result are that total.
#[verifier::external_body]
#[allow(deprecated)]
pub(crate) fn naive_of_timestamp(secs: i64, nsecs: u32) -> (dt: NaiveDateTime)
    requires
        nsecs < NANOS_PER_SECOND,
        i64::MIN <= secs * NANOS_PER_SECOND + nsecs <= i64::MAX,
    ensures
        naive_nanos(dt) == Some((secs * NANOS_PER_SECOND + nsecs) as i64),
{
    NaiveDateTime::from_timestamp(secs, nsecs)
}

/// `String::from_utf8` accepts exactly the byte vectors that are valid UTF-8,
/// and the string it returns has those bytes.
pub assume_specification[ String::from_utf8 ](vec: Vec<u8>) -> (r: Result<String, FromUtf8Error>)
    ensures
        r is Ok <==> valid_utf8(vec@),
        r matches Ok(s) ==> encode_utf8(s@) == vec@,
;

/// The text shown in place of bytes that are not UTF-8.
pub open spec fn error_text() -> Seq<char> {
    "#!ERR"@
}

/// The text that `raw` decodes to.
pub open spec fn text_of(raw: Seq<u8>) -> Seq<char> {
    if valid_utf8(raw) {
        decode_utf8(raw)
    } else {
        error_text()
    }
}

/// The integer that `raw` decodes to.
pub open spec fn int_of(raw: Seq<u8>) -> i32 {
    if raw.len() == 4 {
        i32_value(raw)
    } else {
        0
    }
}

/// The nanoseconds that `raw` decodes to.
pub open spec fn nanos_of(raw: Seq<u8>) -> i64 {
    if raw.len() == 8 {
        i64_value(raw)
    } else {
        0
    }
}

/// Whole seconds in `nanos`, rounded towards the past.
pub open spec fn whole_seconds(nanos: i64) -> int {
    nanos as int / NANOS_PER_SECOND as int
}

/// The nanoseconds of `nanos` beyond its whole seconds.
pub open spec fn subsecond_nanos(nanos: i64) -> int {
    nanos as int % NANOS_PER_SECOND as int
}

/// Splits nanoseconds since the epoch into whole seconds and the remainder.
pub fn split_nanos(nanos: i64) -> (parts: (i64, u32))
    ensures
        parts.0 == whole_seconds(nanos),
        parts.1 == subsecond_nanos(nanos),
        parts.1 < NANOS_PER_SECOND,
        parts.0 * NANOS_PER_SECOND + parts.1 == nanos,
{
    let q: i64 = nanos / NANOS_PER_SECOND;
    let r: i64 = nanos % NANOS_PER_SECOND;
    if r < 0 {
        (q - 1, (r + NANOS_PER_SECOND) as u32)
    } else {
        (q, r as u32)
    }
}

/// A 32-bit signed integer field.
#[derive(Clone, Copy, Debug, PartialEq, Eq, Structural)]
pub struct Int {
    value: i32,
}

impl View for Int {
    type V = i32;

    closed spec fn view(&self) -> i32 {
        self.value
    }
}

impl Int {
    /// The field that holds `value`.
    pub fn new(value: i32) -> (r: Int)
        ensures
            r@ == value,
    {
        Int { value }
    }

    /// The field that the bytes hold; zero where they are not four bytes.
    pub fn from_(raw: &[u8]) -> (r: Int)
        ensures
            r@ == int_of(raw@),
    {
        Int { value: Int::deserialize(raw) }
    }

    /// The integer that the bytes hold; zero where they are not four bytes.
    pub fn deserialize(raw: &[u8]) -> (value: i32)
        ensures
            value == int_of(raw@),
    {
        i32_from_slice(raw)
    }

    /// The integer that the field holds.
    pub fn get(&self) -> (value: i32)
        ensures
            value == self@,
    {
        self.value
    }

    /// The four bytes of the field, in native byte order.
    pub fn serialize(&self) -> (raw: Vec<u8>)
        ensures
            raw@ == i32_bytes(self@),
    {
        i32_to_vec(self.value)
    }

    /// An integer field survives being written and read: the field that
    /// `from_` makes of the bytes that `serialize` gives is the field itself.
    pub proof fn lemma_round_trip(v: Int, back: Int)
        requires
            back@ == int_of(i32_bytes(v@)),
        ensures
            back == v,
    {
        lemma_i32_round_trip(v@);
    }
}

/// A string field.
#[derive(Debug)]
pub struct Str {
    value: String,
}

impl View for Str {
    type V = Seq<char>;

    closed spec fn view(&self) -> Seq<char> {
        self.value@
    }
}

impl Clone for Str {
    fn clone(&self) -> (r: Str)
        ensures
            r@ == self@,
    {
        Str { value: self.value.clone() }
    }
}

impl PartialEq for Str {
    fn eq(&self, other: &Str) -> (r: bool) {
        self.value == other.value
    }
}

impl PartialEqSpecImpl for Str {
    open spec fn obeys_eq_spec() -> bool {
        true
    }

    open spec fn eq_spec(&self, other: &Str) -> bool {
        self@ == other@
    }
}

impl Str {
    /// The field that holds `value`.
    pub fn new(value: String) -> (r: Str)
        ensures
            r@ == value@,
    {
        Str { value }
    }

    /// The field that the bytes hold; the text `#!ERR` where they are not
    /// UTF-8.
    pub fn from_(raw: &[u8]) -> (r: Str)
        ensures
            r@ == text_of(raw@),
    {
        Str { value: Str::deserialize(raw) }
    }

    /// The string that the bytes hold; the text `#!ERR` where they are not
    /// UTF-8.
    pub fn deserialize(raw: &[u8]) -> (value: String)
        ensures
            value@ == text_of(raw@),
    {
        match String::from_utf8(slice_to_vec(raw)) {
            Ok(s) => {
                proof {
                    vstd::utf8::encode_utf8_decode_utf8(s@);
                }
                s
            },
            Err(_) => String::from_str("#!ERR"),
        }
    }

    /// The string that the field holds.
    pub fn get(&self) -> (value: String)
        ensures
            value@ == self@,
    {
        self.value.clone()
    }

    /// The UTF-8 bytes of the field.
    pub fn serialize(&self) -> (raw: Vec<u8>)
        ensures
            raw@ == encode_utf8(self@),
    {
        slice_to_vec(self.value.as_str().as_bytes())
    }

    /// A string field survives being written and read: the field that
    /// `from_` makes of the bytes that `serialize` gives holds the same text.
    pub proof fn lemma_round_trip(v: Str, back: Str)
        requires
            back@ == text_of(encode_utf8(v@)),
        ensures
            back@ == v@,
    {
        vstd::utf8::encode_utf8_valid_utf8(v@);
        vstd::utf8::encode_utf8_decode_utf8(v@);
    }
}

/// A timestamp field: signed nanoseconds since the epoch.
#[derive(Clone, Copy, Debug, PartialEq, Eq, Structural)]
pub struct DateTime {
    value: i64,
}

impl View for DateTime {
    type V = i64;

    closed spec fn view(&self) -> i64 {
        self.value
    }
}

impl DateTime {
    /// The timestamp of a date and time whose nanoseconds since the epoch a
    /// 64-bit integer holds.  Only the nanoseconds are kept: a date and time
    /// that chrono marks as a leap second comes back from `get` as the
    /// ordinary instant with the same nanoseconds.
    pub fn new(value: NaiveDateTime) -> (r: DateTime)
        requires
            naive_nanos(value) is Some,
        ensures
            Some(r@) == naive_nanos(value),
    {
        match nanos_of_naive(&value) {
            Some(nanos) => DateTime { value: nanos },
            None => DateTime { value: 0 },
        }
    }

    /// The timestamp of a date and time, or `None` where its nanoseconds
    /// since the epoch do not fit in 64 bits.
    pub fn checked_new(value: NaiveDateTime) -> (r: Option<DateTime>)
        ensures
            r is Some <==> naive_nanos(value) is Some,
            r matches Some(t) ==> Some(t@) == naive_nanos(value),
    {
        match nanos_of_naive(&value) {
            Some(_) => Some(DateTime::new(value)),
            None => None,
        }
    }

    /// The timestamp that lies `nanos` nanoseconds after the epoch.
    pub fn from_nanos(nanos: i64) -> (r: DateTime)
        ensures
            r@ == nanos,
    {
        DateTime { value: nanos }
    }

    /// Nanoseconds since the epoch.
    pub fn nanos(&self) -> (nanos: i64)
        ensures
            nanos == self@,
    {
        self.value
    }

    /// The field that the bytes hold; the epoch where they are not eight
    /// bytes.
    pub fn from_(raw: &[u8]) -> (r: DateTime)
        ensures
            r@ == nanos_of(raw@),
    {
        DateTime { value: i64_from_slice(raw) }
    }

    /// The date and time that the bytes hold; the epoch where they are not
    /// eight bytes.
    pub fn deserialize(raw: &[u8]) -> (value: NaiveDateTime)
        ensures
            naive_nanos(value) == Some(nanos_of(raw@)),
    {
        DateTime::from_(raw).get()
    }

    /// The date and time that the field holds: its whole seconds and the
    /// nanoseconds beyond them, counted from the epoch.
    pub fn get(&self) -> (value: NaiveDateTime)
        ensures
            naive_nanos(value) == Some(self@),
    {
        let (secs, nsecs) = split_nanos(self.value);
        naive_of_timestamp(secs, nsecs)
    }

    /// The eight bytes of the field, in native byte order.
    pub fn serialize(&self) -> (raw: Vec<u8>)
        ensures
            raw@ == i64_bytes(self@),
    {
        i64_to_vec(self.value)
    }

    /// A timestamp field survives being written and read: the field that
    /// `from_` makes of the bytes that `serialize` gives is the field itself.
    pub proof fn lemma_round_trip(v: DateTime, back: DateTime)
        requires
            back@ == nanos_of(i64_bytes(v@)),
        ensures
            back == v,
    {
        lemma_i64_round_trip(v@);
    }
}

/// The kinds of field.
#[derive(Clone, Copy, Debug, PartialEq, Eq, Structural)]
pub enum Kind {
    Int,
    Str,
    DateTime,
}

/// What a tagged value holds.
pub enum Value {
    Int(i32),
    Str(Seq<char>),
    DateTime(i64),
}

impl Value {
    pub open spec fn kind(self) -> Kind {
        match self {
            Value::Int(_) => Kind::Int,
            Value::Str(_) => Kind::Str,
            Value::DateTime(_) => Kind::DateTime,
        }
    }
}

/// The bytes of a field that holds `value`.
pub open spec fn encode_value(value: Value) -> Seq<u8> {
    match value {
        Value::Int(v) => i32_bytes(v),
        Value::Str(v) => encode_utf8(v),
        Value::DateTime(v) => i64_bytes(v),
    }
}

/// What the bytes of a field of the given kind hold.
pub open spec fn decode_value(kind: Kind, raw: Seq<u8>) -> Value {
    match kind {
        Kind::Int => Value::Int(int_of(raw)),
        Kind::Str => Value::Str(text_of(raw)),
        Kind::DateTime => Value::DateTime(nanos_of(raw)),
    }
}

/// The bytes of the fields of a row, in the order of the fields.
pub open spec fn encode_values(values: Seq<Value>) -> Seq<Seq<u8>> {
    Seq::new(values.len(), |i: int| encode_value(values[i]))
}

/// What the fields of a row hold, given the kind of each.
pub open spec fn decode_values(kinds: Seq<Kind>, raw: Seq<Seq<u8>>) -> Seq<Value> {
    Seq::new(kinds.len(), |i: int| decode_value(kinds[i], raw[i]))
}

/// There is one value for each kind, and it is of that kind.
pub open spec fn well_typed(values: Seq<Value>, kinds: Seq<Kind>) -> bool {
    &&& values.len() == kinds.len()
    &&& forall|i: int| 0 <= i < values.len() ==> (#[trigger] values[i]).kind() == kinds[i]
}

/// Decoding the encoding of a value gives the value back: an integer, a
/// string or a timestamp survives being written and read.
pub proof fn lemma_value_round_trip(value: Value)
    ensures
        decode_value(value.kind(), encode_value(value)) == value,
{
    match value {
        Value::Int(v) => {
            lemma_i32_round_trip(v);
        },
        Value::Str(v) => {
            vstd::utf8::encode_utf8_valid_utf8(v);
            vstd::utf8::encode_utf8_decode_utf8(v);
        },
        Value::DateTime(v) => {
            lemma_i64_round_trip(v);
        },
    }
}

/// Decoding the encoded fields of a row gives the row's values back.
pub proof fn lemma_values_round_trip(values: Seq<Value>, kinds: Seq<Kind>)
    requires
        well_typed(values, kinds),
    ensures
        decode_values(kinds, encode_values(values)) == values,
{
    assert forall|i: int| 0 <= i < values.len() implies decode_values(
        kinds,
        encode_values(values),
    )[i] == values[i] by {
        lemma_value_round_trip(values[i]);
    }
    assert(decode_values(kinds, encode_values(values)) =~= values);
}

/// A tagged value: one decoded field of any kind, for comparing fields
/// without knowing the row type.
#[derive(Debug)]
pub enum DType {
    Int(Int),
    Str(Str),
    DateTime(DateTime),
}

impl View for DType {
    type V = Value;

    open spec fn view(&self) -> Value {
        match self {
            DType::Int(v) => Value::Int(v@),
            DType::Str(v) => Value::Str(v@),
            DType::DateTime(v) => Value::DateTime(v@),
        }
    }
}

impl Clone for DType {
    fn clone(&self) -> (r: DType)
        ensures
            r@ == self@,
    {
        match self {
            DType::Int(v) => DType::Int(*v),
            DType::Str(v) => DType::Str(v.clone()),
            DType::DateTime(v) => DType::DateTime(*v),
        }
    }
}

impl PartialEq for DType {
    fn eq(&self, other: &DType) -> (r: bool) {
        match (self, other) {
            (DType::Int(a), DType::Int(b)) => a.get() == b.get(),
            (DType::Str(a), DType::Str(b)) => a.eq(b),
            (DType::DateTime(a), DType::DateTime(b)) => a.nanos() == b.nanos(),
            _ => false,
        }
    }
}

impl PartialEqSpecImpl for DType {
    open spec fn obeys_eq_spec() -> bool {
        true
    }

    open spec fn eq_spec(&self, other: &DType) -> bool {
        self@ == other@
    }
}

impl DType {
    pub fn kind(&self) -> (kind: Kind)
        ensures
            kind == self@.kind(),
    {
        match self {
            DType::Int(_) => Kind::Int,
            DType::Str(_) => Kind::Str,
            DType::DateTime(_) => Kind::DateTime,
        }
    }

    /// The bytes of a field that holds this value.
    pub fn serialize(&self) -> (raw: Vec<u8>)
        ensures
            raw@ == encode_value(self@),
    {
        match self {
            DType::Int(v) => v.serialize(),
            DType::Str(v) => v.serialize(),
            DType::DateTime(v) => v.serialize(),
        }
    }

    /// What the bytes of a field of the given kind hold.
    pub fn decode(kind: Kind, raw: &[u8]) -> (value: DType)
        ensures
            value@ == decode_value(kind, raw@),
    {
        match kind {
            Kind::Int => DType::Int(Int::from_(raw)),
            Kind::Str => DType::Str(Str::from_(raw)),
            Kind::DateTime => DType::DateTime(DateTime::from_(raw)),
        }
    }
}

} // verus!
