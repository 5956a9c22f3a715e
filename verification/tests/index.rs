use versebase::index::TableIndex;

fn record(id: i32, pos: u64) -> Vec<u8> {
    let mut out = id.to_ne_bytes().to_vec();
    out.extend_from_slice(&pos.to_ne_bytes());
    out
}

#[test]
fn empty_image_gives_an_empty_index() {
    let index = TableIndex::new(Vec::new()).unwrap();
    assert_eq!(index.len(), 0);
    assert!(!index.contains(1));
    assert_eq!(index.get(1), None);
    assert_eq!(index.image(), &Vec::<u8>::new());
}

#[test]
fn set_maps_and_overwrites() {
    let mut index = TableIndex::new(Vec::new()).unwrap();
    index.set(2, 40);
    index.set(1, 0);
    assert!(index.contains(1));
    assert!(index.contains(2));
    assert!(!index.contains(3));
    assert_eq!(index.get(1), Some(0));
    assert_eq!(index.get(2), Some(40));
    index.set(2, 99);
    assert_eq!(index.get(2), Some(99));
    assert_eq!(index.len(), 2);
}

#[test]
fn every_change_rewrites_the_image_in_ascending_order() {
    let mut index = TableIndex::new(Vec::new()).unwrap();
    index.set(7, 700);
    assert_eq!(index.image(), &record(7, 700));
    index.set(-3, 30);
    let mut expected = record(-3, 30);
    expected.extend_from_slice(&record(7, 700));
    assert_eq!(index.image(), &expected);
    index.set(5, 500);
    let mut expected = record(-3, 30);
    expected.extend_from_slice(&record(5, 500));
    expected.extend_from_slice(&record(7, 700));
    assert_eq!(index.image(), &expected);
    assert_eq!(index.delete(5), Some(500));
    let mut expected = record(-3, 30);
    expected.extend_from_slice(&record(7, 700));
    assert_eq!(index.image(), &expected);
    index.clear();
    assert_eq!(index.image(), &Vec::<u8>::new());
    assert_eq!(index.len(), 0);
}

#[test]
fn delete_returns_what_was_mapped() {
    let mut index = TableIndex::new(Vec::new()).unwrap();
    index.set(1, 10);
    assert_eq!(index.delete(2), None);
    assert_eq!(index.delete(1), Some(10));
    assert_eq!(index.delete(1), None);
    assert!(!index.contains(1));
}

#[test]
fn records_of_twelve_bytes_load_in_any_order() {
    let mut image = record(9, 90);
    image.extend_from_slice(&record(4, 40));
    image.extend_from_slice(&record(i32::MIN, u64::MAX));
    let index = TableIndex::new(image.clone()).unwrap();
    assert_eq!(index.len(), 3);
    assert_eq!(index.get(9), Some(90));
    assert_eq!(index.get(4), Some(40));
    assert_eq!(index.get(i32::MIN), Some(u64::MAX));
    assert_eq!(image.len(), 36);
    assert_eq!(index.image(), &image);
}

#[test]
fn of_two_records_with_one_id_the_later_stays() {
    let mut image = record(1, 10);
    image.extend_from_slice(&record(1, 20));
    let index = TableIndex::new(image).unwrap();
    assert_eq!(index.len(), 1);
    assert_eq!(index.get(1), Some(20));
}

#[test]
fn a_dumped_image_loads_to_the_same_map() {
    let mut index = TableIndex::new(Vec::new()).unwrap();
    for (id, pos) in [(5, 50u64), (1, 10), (3, 30), (-7, 70), (i32::MAX, 0)] {
        index.set(id, pos);
    }
    let again = TableIndex::new(index.image().clone()).unwrap();
    assert_eq!(again.len(), 5);
    for (id, pos) in [(5, 50u64), (1, 10), (3, 30), (-7, 70), (i32::MAX, 0)] {
        assert_eq!(again.get(id), Some(pos));
    }
    assert_eq!(again.image(), index.image());
}

#[test]
fn load_puts_records_on_top_of_what_is_mapped() {
    let mut index = TableIndex::new(record(1, 10)).unwrap();
    index.set(2, 20);
    // the image now lists both ids; loading it again changes nothing
    index.load();
    assert_eq!(index.len(), 2);
    assert_eq!(index.get(1), Some(10));
    assert_eq!(index.get(2), Some(20));
    index.dump();
    let mut expected = record(1, 10);
    expected.extend_from_slice(&record(2, 20));
    assert_eq!(index.image(), &expected);
}
