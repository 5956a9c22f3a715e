use std::ops::Deref;
use versebase::datatypes::{DType, DateTime, Int, Str};

#[test]
fn test_int() {
    let num = 5;
    let byte_array_le = [5u8, 0u8, 0u8, 0u8];

    let obj = Int::new(num);

    assert_eq!(obj.get(), num);

    assert_eq!(Int::deserialize(&byte_array_le), num);
    assert_eq!(Int::from_(&byte_array_le).get(), num);
    assert_eq!(obj.serialize().deref(), byte_array_le);
}

#[test]
fn test_str() {
    let text: String = "Amour Plastique".into();
    let byte_array = [65, 109, 111, 117, 114, 32, 80, 108, 97, 115, 116, 105, 113, 117, 101];

    let obj = Str::new(text.clone());
    assert_eq!(obj.get(), text.clone());
    assert_eq!(obj.serialize().deref(), byte_array.clone());
    assert_eq!(Str::deserialize(&byte_array), text.clone());
    assert_eq!(Str::from_(&byte_array).get(), text.clone());
}

#[test]
#[allow(deprecated)]
fn test_datetime() {
    let datetime = chrono::NaiveDateTime::from_timestamp(60, 1024);
    let byte_array_le = [0, 92, 71, 248, 13, 0, 0, 0];

    let obj = DateTime::new(datetime.clone());

    assert_eq!(obj.get(), datetime);

    assert_eq!(DateTime::deserialize(&byte_array_le), datetime);
    assert_eq!(DateTime::from_(&byte_array_le).get(), datetime);
    assert_eq!(obj.serialize().deref(), byte_array_le);
}

#[test]
fn int_round_trip_extremes() {
    for v in [0, 1, -1, 5, -5, 0x00FF00FF, i32::MAX, i32::MIN] {
        let raw = Int::new(v).serialize();
        assert_eq!(raw.len(), 4);
        assert_eq!(Int::deserialize(&raw), v);
    }
    assert_eq!(Int::new(-2).serialize(), vec![0xFE, 0xFF, 0xFF, 0xFF]);
    assert_eq!(Int::new(0x01020304).serialize(), vec![4, 3, 2, 1]);
}

#[test]
fn int_wrong_length_decodes_to_zero() {
    assert_eq!(Int::deserialize(&[]), 0);
    assert_eq!(Int::deserialize(&[1, 2, 3]), 0);
    assert_eq!(Int::deserialize(&[1, 2, 3, 4, 5]), 0);
    assert_eq!(Int::from_(&[9]).get(), 0);
}

#[test]
fn str_round_trip() {
    for text in ["", "Slayer", "Seasons In The Abyss", "héllo wörld", "日本語", "🎸"] {
        let raw = Str::new(text.to_string()).serialize();
        assert_eq!(raw, text.as_bytes().to_vec());
        assert_eq!(Str::deserialize(&raw), text.to_string());
    }
}

#[test]
fn str_invalid_utf8_decodes_to_marker() {
    assert_eq!(Str::deserialize(&[0xFF]), "#!ERR".to_string());
    assert_eq!(Str::deserialize(&[0xC3]), "#!ERR".to_string());
    assert_eq!(Str::from_(&[0x80, 0x80]).get(), "#!ERR".to_string());
}

#[test]
fn datetime_round_trip() {
    for nanos in [0i64, 1, -1, 60_000_001_024, -60_000_001_024, i64::MAX, i64::MIN] {
        let stamp = DateTime::from_nanos(nanos);
        let raw = stamp.serialize();
        assert_eq!(raw.len(), 8);
        assert_eq!(DateTime::from_(&raw), stamp);
        assert_eq!(DateTime::from_(&raw).nanos(), nanos);
        let naive = stamp.get();
        assert_eq!(naive.and_utc().timestamp_nanos_opt(), Some(nanos));
        assert_eq!(DateTime::new(naive), stamp);
        assert_eq!(DateTime::deserialize(&raw), naive);
    }
}

#[test]
fn datetime_before_the_epoch_splits_towards_the_past() {
    assert_eq!(versebase::datatypes::split_nanos(-1), (-1, 999_999_999));
    assert_eq!(versebase::datatypes::split_nanos(-1_000_000_000), (-1, 0));
    assert_eq!(versebase::datatypes::split_nanos(-1_000_000_001), (-2, 999_999_999));
    assert_eq!(versebase::datatypes::split_nanos(1_500_000_000), (1, 500_000_000));
    let naive = DateTime::from_nanos(-1).get();
    assert_eq!(naive.and_utc().timestamp(), -1);
    assert_eq!(naive.and_utc().timestamp_subsec_nanos(), 999_999_999);
}

#[test]
fn datetime_wrong_length_decodes_to_epoch() {
    assert_eq!(DateTime::from_(&[1, 2, 3]).nanos(), 0);
    assert_eq!(DateTime::from_(&[]).nanos(), 0);
    assert_eq!(DateTime::deserialize(&[1, 2, 3]).and_utc().timestamp_nanos_opt(), Some(0));
}

#[test]
fn datetime_out_of_range_is_refused() {
    let far = chrono::NaiveDate::from_ymd_opt(3000, 1, 1).unwrap().and_hms_opt(0, 0, 0).unwrap();
    assert!(DateTime::checked_new(far).is_none());
    let near = chrono::NaiveDate::from_ymd_opt(2000, 1, 1).unwrap().and_hms_opt(0, 0, 0).unwrap();
    assert_eq!(DateTime::checked_new(near).unwrap().nanos(), 946_684_800_000_000_000);
}

#[test]
fn tagged_values_compare_by_content() {
    assert!(DType::Int(Int::new(2)) == DType::Int(Int::new(2)));
    assert!(DType::Int(Int::new(2)) != DType::Int(Int::new(3)));
    assert!(DType::Str(Str::new("a".into())) == DType::Str(Str::new("a".into())));
    assert!(DType::Str(Str::new("a".into())) != DType::Str(Str::new("b".into())));
    assert!(DType::DateTime(DateTime::from_nanos(7)) == DType::DateTime(DateTime::from_nanos(7)));
    assert!(DType::DateTime(DateTime::from_nanos(7)) != DType::Int(Int::new(7)));
    assert!(DType::Str(Str::new("7".into())) != DType::Int(Int::new(7)));
    assert!(DType::Str(Str::new("x".into())).clone() == DType::Str(Str::new("x".into())));
}
