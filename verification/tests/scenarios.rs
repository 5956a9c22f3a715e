use versebase::datatypes::{Int, Str};
use versebase::db::{Database, Stored};
use versebase::error::{Error, ErrorKind};
use versebase::schemas::{Artists, LikedSongs, Lyrics, Songs, Users};
use versebase::datatypes::DateTime;
use versebase::table::{Table, TableFile};
use versebase::index::TableIndex;

fn empty() -> Stored {
    Stored { rows: Vec::new(), index: Vec::new() }
}

fn catalogue() -> Database {
    Database::new(empty(), empty(), empty(), empty(), empty())
}

#[test]
fn a_song_resolves_its_artist() {
    let mut db = catalogue();
    db.artists.create(Artists { id: Int::new(1), name: Str::new("Slayer".into()) }).unwrap();
    db.artists.create(Artists { id: Int::new(2), name: Str::new("Kasabian".into()) }).unwrap();
    db.songs
        .create(Songs {
            id: Int::new(1),
            name: Str::new("Seasons In The Abyss".into()),
            artist_id: Int::new(1),
        })
        .unwrap();
    let song = db.songs.get(1).unwrap();
    assert_eq!(song.name.get(), "Seasons In The Abyss");
    let artist = song.get_artist(&mut db);
    assert_eq!(artist, Some(Artists { id: Int::new(1), name: Str::new("Slayer".into()) }));
}

#[test]
fn a_reference_to_a_missing_row_resolves_to_nothing() {
    let mut db = catalogue();
    let song = Songs { id: Int::new(1), name: Str::new("Underdog".into()), artist_id: Int::new(2) };
    assert_eq!(song.get_artist(&mut db), None);
    let lyrics = Lyrics {
        id: Int::new(1),
        text: Str::new("la".into()),
        language: Str::new("en".into()),
        song_id: Int::new(1),
    };
    assert_eq!(lyrics.get_song(&mut db), None);
    db.songs.create(song.clone()).unwrap();
    assert_eq!(lyrics.get_song(&mut db), Some(song.clone()));
    let liked = LikedSongs {
        id: Int::new(1),
        song_id: Int::new(1),
        user_id: Int::new(4),
        created_at: DateTime::from_nanos(5),
    };
    assert_eq!(liked.get_song(&mut db), Some(song));
    assert_eq!(liked.get_user(&mut db), None);
    let user = Users {
        id: Int::new(4),
        email: Str::new("a@b.c".into()),
        password: Str::new("p".into()),
        salt: Str::new("s".into()),
        language: Str::new("en".into()),
        last_login: DateTime::from_nanos(60_000_001_024),
    };
    db.users.create(user.clone()).unwrap();
    assert_eq!(liked.get_user(&mut db), Some(user));
    let artist = Artists { id: Int::new(2), name: Str::new("Kasabian".into()) };
    assert_eq!(artist.get_songs(&mut db), Vec::<Songs>::new());
}

#[test]
fn delete_leaves_the_other_row_and_no_trace_in_the_image() {
    let file = TableFile::<Artists>::new(Vec::new()).unwrap();
    let index = TableIndex::new(Vec::new()).unwrap();
    let mut table = Table::new("artists".to_string(), file, Some(index)).unwrap();
    table.create(Artists { id: Int::new(1), name: Str::new("Slayer".into()) }).unwrap();
    table.create(Artists { id: Int::new(2), name: Str::new("Kasabian".into()) }).unwrap();
    table.delete(1).unwrap();
    assert_eq!(table.get(1).unwrap_err().kind, ErrorKind::NotFound);
    assert_eq!(table.get(2).unwrap(), Artists { id: Int::new(2), name: Str::new("Kasabian".into()) });

    let mut scan = TableFile::<Artists>::new(table.image().clone()).unwrap();
    scan.seek(0).unwrap();
    let mut seen = Vec::new();
    loop {
        match scan.read_row().unwrap() {
            Some((row, _, _)) => seen.push(row.id.get()),
            None => break,
        }
    }
    assert_eq!(seen, vec![2]);
}

#[test]
fn the_catalogue_opens_over_stored_images() {
    let mut db = catalogue();
    db.artists.create(Artists { id: Int::new(1), name: Str::new("Slayer".into()) }).unwrap();
    db.artists.create(Artists { id: Int::new(2), name: Str::new("Kasabian".into()) }).unwrap();
    let artists = Stored {
        rows: db.artists.image().clone(),
        index: db.artists.index.as_ref().unwrap().image().clone(),
    };
    assert_eq!(artists.index.len(), 24);
    let mut again = Database::new(empty(), empty(), empty(), artists, empty());
    assert_eq!(again.artists.name, "artists");
    assert_eq!(again.liked_songs.name, "liked_songs");
    assert_eq!(again.artists.get(2).unwrap().name.get(), "Kasabian");
    assert_eq!(again.songs.get(2).unwrap_err().kind, ErrorKind::NotFound);
}

#[test]
fn outside_failures_become_errors_of_their_kind() {
    let e = Error::from("12x".parse::<i32>().unwrap_err());
    assert_eq!(e.kind, ErrorKind::Parse);
    assert_eq!(e.message, "invalid digit found in string");
    let e = Error::from(std::io::Error::new(std::io::ErrorKind::Other, "disk on fire"));
    assert_eq!(e.kind, ErrorKind::Io);
    assert_eq!(e.message, "disk on fire");
}
