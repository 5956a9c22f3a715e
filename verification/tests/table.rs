use versebase::datatypes::{DType, DateTime, Int, Kind, Str};
use versebase::error::ErrorKind;
use versebase::index::TableIndex;
use versebase::schemas::{Artists, Songs, Users};
use versebase::table::{Table, TableFile, TableSchema};

fn artist(id: i32, name: &str) -> Artists {
    Artists { id: Int::new(id), name: Str::new(name.to_string()) }
}

fn song(id: i32, name: &str, artist_id: i32) -> Songs {
    Songs { id: Int::new(id), name: Str::new(name.to_string()), artist_id: Int::new(artist_id) }
}

fn indexed<S: TableSchema>(image: Vec<u8>) -> Table<S> {
    let file = TableFile::<S>::new(image).unwrap();
    let index = TableIndex::new(Vec::new()).unwrap();
    Table::new("t".to_string(), file, Some(index)).unwrap()
}

fn plain<S: TableSchema>(image: Vec<u8>) -> Table<S> {
    Table::new("t".to_string(), TableFile::<S>::new(image).unwrap(), None).unwrap()
}

fn both() -> Vec<Table<Artists>> {
    vec![indexed(Vec::new()), plain(Vec::new())]
}

#[test]
fn a_created_row_is_found() {
    for mut table in both() {
        assert_eq!(table.create(artist(1, "Slayer")).unwrap(), 1);
        assert_eq!(table.get(1).unwrap(), artist(1, "Slayer"));
        assert_eq!(table.create(artist(-5, "Kasabian")).unwrap(), -5);
        assert_eq!(table.get(-5).unwrap(), artist(-5, "Kasabian"));
        assert_eq!(table.get(1).unwrap(), artist(1, "Slayer"));
    }
}

#[test]
fn a_created_row_with_a_timestamp_is_found() {
    let row = Users {
        id: Int::new(3),
        email: Str::new("a@b.c".into()),
        password: Str::new("pw".into()),
        salt: Str::new("".into()),
        language: Str::new("日本語".into()),
        last_login: DateTime::from_nanos(-60_000_001_024),
    };
    let mut table = indexed::<Users>(Vec::new());
    assert_eq!(table.create(row.clone()).unwrap(), 3);
    assert_eq!(table.get(3).unwrap(), row);
    let mut table = plain::<Users>(table.image().clone());
    assert_eq!(table.get(3).unwrap(), row);
}

#[test]
fn a_taken_id_is_refused() {
    for mut table in both() {
        table.create(artist(1, "Slayer")).unwrap();
        table.create(artist(2, "Kasabian")).unwrap();
        let before = table.image().clone();
        let e = table.create(artist(1, "Muse")).unwrap_err();
        assert_eq!(e.kind, ErrorKind::AlreadyExists);
        assert_eq!(e.message, "id already exists");
        assert_eq!(table.image(), &before);
        assert_eq!(table.get(1).unwrap(), artist(1, "Slayer"));
        assert_eq!(table.get(2).unwrap(), artist(2, "Kasabian"));
        assert_eq!(table.select(Vec::new()).unwrap().len(), 2);
    }
}

#[test]
fn an_empty_table_finds_nothing() {
    for mut table in both() {
        for id in [0, 1, -1, i32::MAX, i32::MIN] {
            let e = table.get(id).unwrap_err();
            assert_eq!(e.kind, ErrorKind::NotFound);
            assert_eq!(e.message, "record with a given id doesn't exist");
        }
    }
}

#[test]
fn a_deleted_row_is_gone() {
    for mut table in both() {
        table.create(artist(1, "Slayer")).unwrap();
        table.create(artist(2, "Kasabian")).unwrap();
        table.create(artist(3, "Muse")).unwrap();
        table.delete(2).unwrap();
        assert_eq!(table.get(2).unwrap_err().kind, ErrorKind::NotFound);
        assert_eq!(table.get(1).unwrap(), artist(1, "Slayer"));
        assert_eq!(table.get(3).unwrap(), artist(3, "Muse"));
        assert_eq!(table.select(Vec::new()).unwrap(), vec![artist(1, "Slayer"), artist(3, "Muse")]);
    }
}

#[test]
fn deleting_what_is_not_there_changes_nothing() {
    for mut table in both() {
        table.create(artist(1, "Slayer")).unwrap();
        let before = table.image().clone();
        let e = table.delete(2).unwrap_err();
        assert_eq!(e.kind, ErrorKind::NotFound);
        assert_eq!(e.message, "record not found");
        assert_eq!(table.image(), &before);
        assert_eq!(table.get(1).unwrap(), artist(1, "Slayer"));
    }
    for mut table in both() {
        assert_eq!(table.delete(1).unwrap_err().kind, ErrorKind::NotFound);
        assert_eq!(table.image(), &Vec::<u8>::new());
    }
}

#[test]
fn select_returns_the_rows_that_satisfy_the_filter_in_order() {
    let mut table = indexed::<Songs>(Vec::new());
    table.create(song(1, "Seasons In The Abyss", 1)).unwrap();
    table.create(song(2, "Underdog", 2)).unwrap();
    table.create(song(3, "Club foot", 2)).unwrap();
    table.create(song(4, "Underdog", 7)).unwrap();

    let by_artist = vec![("artist_id".to_string(), DType::Int(Int::new(2)))];
    assert_eq!(table.select(by_artist).unwrap(), vec![song(2, "Underdog", 2), song(3, "Club foot", 2)]);

    let by_name = vec![("name".to_string(), DType::Str(Str::new("Underdog".into())))];
    assert_eq!(table.select(by_name).unwrap(), vec![song(2, "Underdog", 2), song(4, "Underdog", 7)]);

    let by_both = vec![
        ("name".to_string(), DType::Str(Str::new("Underdog".into()))),
        ("artist_id".to_string(), DType::Int(Int::new(7))),
    ];
    assert_eq!(table.select(by_both).unwrap(), vec![song(4, "Underdog", 7)]);

    let none = vec![("artist_id".to_string(), DType::Int(Int::new(9)))];
    assert_eq!(table.select(none).unwrap(), Vec::<Songs>::new());

    let contradictory = vec![
        ("artist_id".to_string(), DType::Int(Int::new(2))),
        ("artist_id".to_string(), DType::Int(Int::new(7))),
    ];
    assert_eq!(table.select(contradictory).unwrap(), Vec::<Songs>::new());
}

#[test]
fn select_compares_kind_and_content() {
    let mut table = plain::<Songs>(Vec::new());
    table.create(song(1, "2", 2)).unwrap();
    let wrong_kind = vec![("artist_id".to_string(), DType::Str(Str::new("2".into())))];
    assert_eq!(table.select(wrong_kind).unwrap(), Vec::<Songs>::new());
    let stamp = vec![("artist_id".to_string(), DType::DateTime(DateTime::from_nanos(2)))];
    assert_eq!(table.select(stamp).unwrap(), Vec::<Songs>::new());
}

#[test]
fn select_ignores_names_that_are_no_fields() {
    let mut table = plain::<Songs>(Vec::new());
    table.create(song(1, "Underdog", 2)).unwrap();
    let unknown = vec![("artist".to_string(), DType::Int(Int::new(99)))];
    assert_eq!(table.select(unknown).unwrap(), vec![song(1, "Underdog", 2)]);
}

#[test]
fn select_without_filter_returns_all_rows_in_insertion_order() {
    for mut table in both() {
        assert_eq!(table.select(Vec::new()).unwrap(), Vec::<Artists>::new());
        let rows = vec![artist(3, "Muse"), artist(1, "Slayer"), artist(2, "Kasabian")];
        for row in rows.iter() {
            table.create(row.clone()).unwrap();
        }
        assert_eq!(table.select(Vec::new()).unwrap(), rows);
    }
}

#[test]
fn select_over_a_corrupt_image_fails() {
    let mut songs = plain::<Songs>(Vec::new());
    songs.create(song(1, "Underdog", 2)).unwrap();
    let mut artists = plain::<Artists>(songs.image().clone());
    assert_eq!(artists.select(Vec::new()).unwrap_err().kind, ErrorKind::FilePointerCorrupt);
    assert_eq!(artists.get(1).unwrap_err().kind, ErrorKind::FilePointerCorrupt);
    assert_eq!(artists.delete(1).unwrap_err().kind, ErrorKind::FilePointerCorrupt);
    assert_eq!(artists.create(artist(1, "Slayer")).unwrap_err().kind, ErrorKind::FilePointerCorrupt);
    assert_eq!(artists.image(), songs.image());
}

#[test]
fn update_replaces_the_row_with_the_id() {
    for mut table in both() {
        table.create(artist(1, "Slayer")).unwrap();
        table.create(artist(2, "Kasabian")).unwrap();
        table.update(artist(1, "Muse")).unwrap();
        assert_eq!(table.get(1).unwrap(), artist(1, "Muse"));
        assert_eq!(table.get(2).unwrap(), artist(2, "Kasabian"));
        assert_eq!(table.select(Vec::new()).unwrap(), vec![artist(2, "Kasabian"), artist(1, "Muse")]);
    }
}

#[test]
fn update_of_what_is_not_there_fails_and_stores_nothing() {
    for mut table in both() {
        table.create(artist(1, "Slayer")).unwrap();
        let before = table.image().clone();
        let e = table.update(artist(2, "Muse")).unwrap_err();
        assert_eq!(e.kind, ErrorKind::NotFound);
        assert_eq!(table.image(), &before);
        assert_eq!(table.get(2).unwrap_err().kind, ErrorKind::NotFound);
    }
}

#[test]
fn the_index_maps_each_id_to_where_its_row_starts() {
    let mut table = indexed::<Artists>(Vec::new());
    table.create(artist(1, "Slayer")).unwrap();
    table.create(artist(2, "Kasabian")).unwrap();
    table.create(artist(3, "Muse")).unwrap();
    let index = table.index.as_ref().unwrap();
    assert_eq!(index.get(1), Some(0));
    assert_eq!(index.get(2), Some(26));
    assert_eq!(index.get(3), Some(54));
    table.delete(2).unwrap();
    let index = table.index.as_ref().unwrap();
    assert_eq!(index.get(1), Some(0));
    assert_eq!(index.get(2), None);
    assert_eq!(index.get(3), Some(26));
}

#[test]
fn the_live_index_is_the_index_that_a_scan_builds() {
    let mut table = indexed::<Artists>(Vec::new());
    let steps: Vec<(bool, i32)> = vec![
        (true, 4), (true, 1), (true, 9), (false, 1), (true, 2), (false, 9), (true, 1), (false, 7),
        (true, 4), (false, 4), (true, 12),
    ];
    for (create, id) in steps {
        if create {
            let _ = table.create(artist(id, "x"));
        } else {
            let _ = table.delete(id);
        }
        let fresh = indexed::<Artists>(table.image().clone());
        assert_eq!(
            table.index.as_ref().unwrap().image(),
            fresh.index.as_ref().unwrap().image()
        );
        for id in 0..13 {
            assert_eq!(table.index.as_ref().unwrap().get(id), fresh.index.as_ref().unwrap().get(id));
        }
    }
    assert_eq!(table.select(Vec::new()).unwrap(), vec![artist(2, "x"), artist(1, "x"), artist(12, "x")]);
}

#[test]
fn a_table_builds_its_index_anew_when_it_is_opened() {
    let mut table = plain::<Artists>(Vec::new());
    table.create(artist(1, "Slayer")).unwrap();
    table.create(artist(2, "Kasabian")).unwrap();
    let mut stale = TableIndex::new(Vec::new()).unwrap();
    stale.set(1, 999);
    stale.set(5, 0);
    let file = TableFile::<Artists>::new(table.image().clone()).unwrap();
    let mut opened = Table::new("artists".to_string(), file, Some(stale)).unwrap();
    assert_eq!(opened.name, "artists");
    let index = opened.index.as_ref().unwrap();
    assert_eq!(index.len(), 2);
    assert_eq!(index.get(1), Some(0));
    assert_eq!(index.get(2), Some(26));
    assert_eq!(index.get(5), None);
    assert_eq!(opened.get(2).unwrap(), artist(2, "Kasabian"));
}

#[test]
fn with_an_index_a_lookup_reads_where_the_index_points() {
    let mut table = indexed::<Artists>(Vec::new());
    table.create(artist(1, "Slayer")).unwrap();
    table.create(artist(2, "Kasabian")).unwrap();
    // an index that points off a boundary or past the end
    table.index.as_mut().unwrap().set(1, 3);
    assert_eq!(table.get(1).unwrap_err().kind, ErrorKind::FilePointerCorrupt);
    table.index.as_mut().unwrap().set(1, 54);
    assert_eq!(table.get(1).unwrap_err().kind, ErrorKind::NotFound);
    table.index.as_mut().unwrap().set(1, 26);
    assert_eq!(table.get(1).unwrap(), artist(2, "Kasabian"));
}

#[test]
fn a_row_that_does_not_frame_cleanly_corrupts_the_image() {
    let mut table = plain::<Artists>(Vec::new());
    // the id's bytes FF 00 FF 00 run into the field delimiter behind them
    table.create(artist(0x00FF00FF, "x")).unwrap();
    assert_eq!(table.get(0x00FF00FF).unwrap_err().kind, ErrorKind::NotFound);
    assert_eq!(table.select(Vec::new()).unwrap().len(), 1);
    assert_ne!(table.select(Vec::new()).unwrap(), vec![artist(0x00FF00FF, "x")]);
}

#[test]
fn rows_offer_their_fields_by_name() {
    let row = song(1, "Underdog", 2);
    assert_eq!(Songs::fields(), vec!["id".to_string(), "name".to_string(), "artist_id".to_string()]);
    assert_eq!(row.get_id(), 1);
    assert!(row.get("id".to_string()) == Some(DType::Int(Int::new(1))));
    assert!(row.get("name".to_string()) == Some(DType::Str(Str::new("Underdog".into()))));
    assert!(row.get("artist_id".to_string()) == Some(DType::Int(Int::new(2))));
    assert!(row.get("artist".to_string()).is_none());
    let raw = row.serialize_to_vec();
    assert_eq!(
        raw,
        vec![
            ("id".to_string(), 1i32.to_ne_bytes().to_vec()),
            ("name".to_string(), b"Underdog".to_vec()),
            ("artist_id".to_string(), 2i32.to_ne_bytes().to_vec()),
        ]
    );
    assert_eq!(row.serialize_to_map(), raw);
    assert_eq!(Songs::from_(raw), row);
    let map = row.to_map();
    assert_eq!(map.len(), 3);
    assert_eq!(map[1].0, "name");
    assert!(map[1].1 == DType::Str(Str::new("Underdog".into())));
}

#[test]
fn rows_decode_leniently() {
    let raw = vec![
        ("id".to_string(), vec![1, 2]),
        ("name".to_string(), vec![0xFF]),
    ];
    assert_eq!(Artists::from_(raw), artist(0, "#!ERR"));
}

#[test]
fn a_row_can_be_asked_whether_it_can_be_stored() {
    assert!(Table::<Artists>::can_store(&artist(1, "Slayer")));
    assert!(Table::<Artists>::can_store(&artist(-1, "")));
    assert!(Table::<Songs>::can_store(&song(i32::MAX, "Underdog", i32::MIN)));
    // FF 00 FF 00 runs into the field delimiter behind it
    assert!(!Table::<Artists>::can_store(&artist(0x00FF00FF, "x")));
    // 00 7F 00 FF as the last field runs into the row delimiter behind it
    assert!(!Table::<Songs>::can_store(&song(1, "x", i32::from_ne_bytes([0, 127, 0, 255]))));
}

#[test]
fn a_table_describes_its_schema() {
    assert_eq!(
        Table::<Songs>::schema_info(),
        vec![
            ("id".to_string(), Kind::Int),
            ("name".to_string(), Kind::Str),
            ("artist_id".to_string(), Kind::Int),
        ]
    );
    assert_eq!(
        Users::kinds(),
        vec![Kind::Int, Kind::Str, Kind::Str, Kind::Str, Kind::Str, Kind::DateTime]
    );
    assert_eq!(Table::<Users>::schema_info().len(), 6);
    assert_eq!(Table::<Users>::schema_info()[5], ("last_login".to_string(), Kind::DateTime));
}

#[test]
fn rows_are_cloned_field_by_field() {
    let row = song(1, "Underdog", 2);
    assert_eq!(row.clone(), row);
    assert_eq!(Songs::new(Int::new(1), Str::new("Underdog".into()), Int::new(2)), row);
}
