use versebase::framing::{
    check_frames_cleanly, ends_field, ends_row, is_boundary, same_bytes, same_fields, scan,
    write_frame,
};

const FIELD: [u8; 8] = [255, 0, 255, 0, 255, 0, 255, 0];
const ROW: [u8; 8] = [0, 127, 0, 255, 0, 127, 0, 255];

fn framed(fields: &Vec<Vec<u8>>) -> Vec<u8> {
    let mut out = Vec::new();
    write_frame(&mut out, fields);
    out
}

#[test]
fn frame_joins_fields_and_closes_the_row() {
    let fields = vec![vec![1, 0, 0, 0], b"Slayer".to_vec()];
    let mut expected = vec![1, 0, 0, 0];
    expected.extend_from_slice(&FIELD);
    expected.extend_from_slice(b"Slayer");
    expected.extend_from_slice(&ROW);
    assert_eq!(framed(&fields), expected);
}

#[test]
fn frame_of_one_field_has_no_field_delimiter() {
    let mut expected = vec![7];
    expected.extend_from_slice(&ROW);
    assert_eq!(framed(&vec![vec![7]]), expected);
}

#[test]
fn frame_of_no_fields_is_the_row_delimiter() {
    assert_eq!(framed(&Vec::new()), ROW.to_vec());
}

#[test]
fn frame_is_appended_behind_what_is_there() {
    let mut out = vec![9, 9];
    write_frame(&mut out, &vec![vec![1]]);
    let mut expected = vec![9, 9, 1];
    expected.extend_from_slice(&ROW);
    assert_eq!(out, expected);
}

#[test]
fn scan_reads_a_frame_back() {
    let fields = vec![vec![1, 0, 0, 0], b"Kasabian".to_vec(), vec![]];
    let image = framed(&fields);
    let (found, end, closed) = scan(&image, 0);
    assert_eq!(found, fields);
    assert_eq!(end, image.len());
    assert!(closed);
}

#[test]
fn scan_stops_at_the_first_row_delimiter() {
    let mut image = framed(&vec![vec![1], vec![2]]);
    let first = image.len();
    image.extend_from_slice(&framed(&vec![vec![3], vec![4]]));
    let (found, end, closed) = scan(&image, 0);
    assert_eq!(found, vec![vec![1], vec![2]]);
    assert_eq!(end, first);
    assert!(closed);
    let (found, end, closed) = scan(&image, first);
    assert_eq!(found, vec![vec![3], vec![4]]);
    assert_eq!(end, image.len());
    assert!(closed);
}

#[test]
fn scan_of_an_unclosed_row_drops_the_tail() {
    let mut image = vec![1, 2, 3];
    image.extend_from_slice(&FIELD);
    image.extend_from_slice(&[4, 5]);
    let (found, end, closed) = scan(&image, 0);
    assert_eq!(found, vec![vec![1, 2, 3]]);
    assert_eq!(end, image.len());
    assert!(!closed);
    let (found, end, closed) = scan(&[1, 2, 3], 0);
    assert_eq!(found, Vec::<Vec<u8>>::new());
    assert_eq!(end, 3);
    assert!(!closed);
    let (found, end, closed) = scan(&[], 0);
    assert_eq!(found, Vec::<Vec<u8>>::new());
    assert_eq!(end, 0);
    assert!(!closed);
}

#[test]
fn fields_without_delimiters_frame_cleanly() {
    assert!(check_frames_cleanly(&vec![vec![1, 0, 0, 0], b"Slayer".to_vec()]));
    assert!(check_frames_cleanly(&vec![vec![], vec![]]));
    assert!(check_frames_cleanly(&vec![vec![0xFF, 0xFF, 0xFF, 0xFF]]));
}

#[test]
fn a_field_that_runs_into_a_delimiter_does_not_frame_cleanly() {
    // the bytes FF 00 FF 00 in front of the field delimiter end the field four bytes early
    assert!(!check_frames_cleanly(&vec![vec![0xFF, 0x00, 0xFF, 0x00], vec![1]]));
    assert!(!check_frames_cleanly(&vec![FIELD.to_vec(), vec![1]]));
    assert!(!check_frames_cleanly(&vec![ROW.to_vec()]));
    assert!(!check_frames_cleanly(&vec![vec![0, 127, 0, 255]]));
}

#[test]
fn delimiters_are_recognised_where_they_end() {
    let mut image = vec![1, 2];
    image.extend_from_slice(&FIELD);
    image.extend_from_slice(&ROW);
    assert!(ends_field(&image, 10));
    assert!(!ends_row(&image, 10));
    assert!(ends_row(&image, 18));
    assert!(!ends_field(&image, 18));
    assert!(!ends_field(&image, 9));
    assert!(!ends_row(&image, 17));
}

#[test]
fn boundaries_are_start_end_and_behind_a_row_delimiter() {
    let mut image = framed(&vec![vec![1]]);
    let first = image.len() as u64;
    image.extend_from_slice(&framed(&vec![vec![2]]));
    let len = image.len() as u64;
    assert!(is_boundary(&image, 0));
    assert!(is_boundary(&image, first));
    assert!(is_boundary(&image, len));
    assert!(!is_boundary(&image, 1));
    assert!(!is_boundary(&image, first - 1));
    assert!(!is_boundary(&image, first + 1));
    assert!(!is_boundary(&image, len + 1));
    assert!(!is_boundary(&image, u64::MAX));
    assert!(is_boundary(&[], 0));
    assert!(!is_boundary(&[], 1));
}

#[test]
fn bytes_and_fields_compare_by_content() {
    assert!(same_bytes(&[1, 2, 3], &[1, 2, 3]));
    assert!(!same_bytes(&[1, 2, 3], &[1, 2, 4]));
    assert!(!same_bytes(&[1, 2, 3], &[1, 2]));
    assert!(same_bytes(&[], &[]));
    assert!(same_fields(&vec![vec![1], vec![]], &vec![vec![1], vec![]]));
    assert!(!same_fields(&vec![vec![1], vec![]], &vec![vec![1]]));
    assert!(!same_fields(&vec![vec![1], vec![2]], &vec![vec![1], vec![3]]));
}
