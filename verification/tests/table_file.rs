use versebase::datatypes::{Int, Str};
use versebase::error::ErrorKind;
use versebase::schemas::{Artists, Songs};
use versebase::table::TableFile;

fn artist(id: i32, name: &str) -> Artists {
    Artists { id: Int::new(id), name: Str::new(name.to_string()) }
}

#[test]
fn an_empty_file_has_no_rows() {
    let mut file = TableFile::<Artists>::new(Vec::new()).unwrap();
    assert_eq!(file.position(), 0);
    assert_eq!(file.len(), 0);
    assert!(file.read_row().unwrap().is_none());
}

#[test]
fn written_rows_are_read_back_with_their_spans() {
    let mut file = TableFile::<Artists>::new(Vec::new()).unwrap();
    let first = file.write_row(&artist(1, "Slayer")).unwrap();
    let second = file.write_row(&artist(2, "Kasabian")).unwrap();
    assert_eq!(first, (0, 4 + 8 + 6 + 8));
    assert_eq!(second, (26, 26 + 4 + 8 + 8 + 8));
    assert_eq!(file.position(), second.1);
    assert_eq!(file.len() as u64, second.1);

    file.seek(0).unwrap();
    let (row, begin, end) = file.read_row().unwrap().unwrap();
    assert_eq!(row, artist(1, "Slayer"));
    assert_eq!((begin, end), first);
    assert_eq!(file.position(), first.1);
    let (row, begin, end) = file.read_row().unwrap().unwrap();
    assert_eq!(row, artist(2, "Kasabian"));
    assert_eq!((begin, end), second);
    assert!(file.read_row().unwrap().is_none());
    assert_eq!(file.position(), second.1);
}

#[test]
fn written_bytes_are_fields_delimiters_and_row_delimiter() {
    let mut file = TableFile::<Artists>::new(Vec::new()).unwrap();
    file.write_row(&artist(1, "Slayer")).unwrap();
    let mut expected = 1i32.to_ne_bytes().to_vec();
    expected.extend_from_slice(&[255, 0, 255, 0, 255, 0, 255, 0]);
    expected.extend_from_slice(b"Slayer");
    expected.extend_from_slice(&[0, 127, 0, 255, 0, 127, 0, 255]);
    assert_eq!(file.image(), &expected);
}

#[test]
fn a_row_is_always_written_at_the_end() {
    let mut file = TableFile::<Artists>::new(Vec::new()).unwrap();
    file.write_row(&artist(1, "Slayer")).unwrap();
    file.seek(0).unwrap();
    let span = file.write_row(&artist(2, "Kasabian")).unwrap();
    assert_eq!(span.0, 26);
    file.seek(26).unwrap();
    assert_eq!(file.read_row().unwrap().unwrap().0, artist(2, "Kasabian"));
}

#[test]
fn seek_counts_negative_offsets_from_the_end() {
    let mut file = TableFile::<Artists>::new(vec![0; 10]).unwrap();
    file.seek(4).unwrap();
    assert_eq!(file.position(), 4);
    file.seek(-1).unwrap();
    assert_eq!(file.position(), 10);
    file.seek(-3).unwrap();
    assert_eq!(file.position(), 8);
    file.seek(-11).unwrap();
    assert_eq!(file.position(), 0);
    file.seek(25).unwrap();
    assert_eq!(file.position(), 25);
    file.seek_to(7);
    assert_eq!(file.position(), 7);
}

#[test]
fn seek_before_the_start_is_an_io_error() {
    let mut file = TableFile::<Artists>::new(vec![0; 10]).unwrap();
    file.seek(3).unwrap();
    let e = file.seek(-12).unwrap_err();
    assert_eq!(e.kind, ErrorKind::Io);
    assert_eq!(file.position(), 3);
    let e = file.seek(i64::MIN).unwrap_err();
    assert_eq!(e.kind, ErrorKind::Io);
}

#[test]
fn reading_off_a_row_boundary_is_a_corrupt_file_pointer() {
    let mut file = TableFile::<Artists>::new(Vec::new()).unwrap();
    file.write_row(&artist(1, "Slayer")).unwrap();
    file.write_row(&artist(2, "Kasabian")).unwrap();
    for pos in [1, 4, 12, 25, 27, 53, 55, 1000] {
        file.seek(pos).unwrap();
        let e = file.read_row().unwrap_err();
        assert_eq!(e.kind, ErrorKind::FilePointerCorrupt);
        assert_eq!(e.message, "file pointer is corrupt");
        assert_eq!(file.position(), pos as u64);
    }
}

#[test]
fn corrupt_row_delimiter_between_rows_is_detected() {
    let mut file = TableFile::<Artists>::new(Vec::new()).unwrap();
    let first = file.write_row(&artist(1, "Slayer")).unwrap();
    file.write_row(&artist(2, "Kasabian")).unwrap();
    let mut image = file.image().clone();
    // spoil the row delimiter that closes the first row
    image[first.1 as usize - 1] = 0;
    image[first.1 as usize - 3] = 9;
    let mut spoiled = TableFile::<Artists>::new(image).unwrap();
    spoiled.seek(first.1 as i64).unwrap();
    let e = spoiled.read_row().unwrap_err();
    assert_eq!(e.kind, ErrorKind::FilePointerCorrupt);
}

#[test]
fn a_row_with_another_number_of_fields_is_corrupt() {
    let mut songs = TableFile::<Songs>::new(Vec::new()).unwrap();
    songs.write_row(&Songs { id: Int::new(1), name: Str::new("Underdog".into()), artist_id: Int::new(2) }).unwrap();
    let mut artists = TableFile::<Artists>::new(songs.image().clone()).unwrap();
    let e = artists.read_row().unwrap_err();
    assert_eq!(e.kind, ErrorKind::FilePointerCorrupt);
    assert_eq!(artists.position(), 0);
    // an image that ends inside a row
    let mut cut = TableFile::<Artists>::new(vec![1, 0, 0, 0, 255, 0, 255]).unwrap();
    assert_eq!(cut.read_row().unwrap_err().kind, ErrorKind::FilePointerCorrupt);
}

#[test]
fn erase_takes_a_span_out_and_moves_the_rest_forward() {
    let mut file = TableFile::<Artists>::new(Vec::new()).unwrap();
    let first = file.write_row(&artist(1, "Slayer")).unwrap();
    let second = file.write_row(&artist(2, "Kasabian")).unwrap();
    let third = file.write_row(&artist(3, "Muse")).unwrap();
    let before = file.image().clone();
    file.erase(second.0, second.1).unwrap();
    let mut expected = before[..second.0 as usize].to_vec();
    expected.extend_from_slice(&before[second.1 as usize..]);
    assert_eq!(file.image(), &expected);
    assert_eq!(file.position(), expected.len() as u64);
    file.seek(0).unwrap();
    assert_eq!(file.read_row().unwrap().unwrap(), (artist(1, "Slayer"), first.0, first.1));
    assert_eq!(
        file.read_row().unwrap().unwrap(),
        (artist(3, "Muse"), second.0, second.0 + (third.1 - third.0))
    );
    assert!(file.read_row().unwrap().is_none());
}

#[test]
fn erase_up_to_or_past_the_end_cuts_the_image() {
    let mut file = TableFile::<Artists>::new(vec![1, 2, 3, 4, 5]).unwrap();
    file.erase(3, 5).unwrap();
    assert_eq!(file.image(), &vec![1, 2, 3]);
    file.erase(1, 100).unwrap();
    assert_eq!(file.image(), &vec![1]);
    file.erase(0, 1).unwrap();
    assert_eq!(file.image(), &Vec::<u8>::new());
}

#[test]
fn erase_behind_the_end_fills_up_with_zero_bytes() {
    let mut file = TableFile::<Artists>::new(vec![1, 2, 3]).unwrap();
    file.erase(5, 6).unwrap();
    assert_eq!(file.image(), &vec![1, 2, 3, 0, 0]);
    assert_eq!(file.position(), 5);
}
