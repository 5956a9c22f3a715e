//! The song catalogue: five tables, each with a primary index.

use crate::index::TableIndex;
use crate::schemas::{Artists, LikedSongs, Lyrics, Songs, Users};
use crate::table::{arity, Table, TableFile, TableSchema, TableView};
use vstd::prelude::*;
use vstd::string::StringExecFns;

verus! {

/// The images of the two files of one table.
pub struct Stored {
    /// The image of the row file.
    pub rows: Vec<u8>,
    /// The image of the index file.
    pub index: Vec<u8>,
}

/// The five tables as the operations see them.
pub struct DatabaseView {
    pub users: TableView,
    pub songs: TableView,
    pub lyrics: TableView,
    pub artists: TableView,
    pub liked_songs: TableView,
}

/// A table as it is right after it was opened over an image: its index is
/// the one that a scan of the image builds.
pub open spec fn opened<S: TableSchema>(rows: Seq<u8>) -> TableView {
    (TableView { image: rows, index: Some(Map::empty()) }).rebuilt(arity::<S>())
}

/// The song catalogue.
pub struct Database {
    pub users: Table<Users>,
    pub songs: Table<Songs>,
    pub lyrics: Table<Lyrics>,
    pub artists: Table<Artists>,
    pub liked_songs: Table<LikedSongs>,
}

impl Database {
    /// The five tables as the operations see them.
    pub open spec fn views(&self) -> DatabaseView {
        DatabaseView {
            users: self.users@,
            songs: self.songs@,
            lyrics: self.lyrics@,
            artists: self.artists@,
            liked_songs: self.liked_songs@,
        }
    }

    /// The catalogue over the images of its files.  Every index is built
    /// anew from the rows.
    pub fn new(
        users: Stored,
        songs: Stored,
        lyrics: Stored,
        artists: Stored,
        liked_songs: Stored,
    ) -> (db: Database)
        requires
            users.index@.len() % 12 == 0,
            songs.index@.len() % 12 == 0,
            lyrics.index@.len() % 12 == 0,
            artists.index@.len() % 12 == 0,
            liked_songs.index@.len() % 12 == 0,
        ensures
            db.views() == (DatabaseView {
                users: opened::<Users>(users.rows@),
                songs: opened::<Songs>(songs.rows@),
                lyrics: opened::<Lyrics>(lyrics.rows@),
                artists: opened::<Artists>(artists.rows@),
                liked_songs: opened::<LikedSongs>(liked_songs.rows@),
            }),
            db.users.label() == "users"@,
            db.songs.label() == "songs"@,
            db.lyrics.label() == "lyrics"@,
            db.artists.label() == "artists"@,
            db.liked_songs.label() == "liked_songs"@,
            db.users.in_sync(),
            db.songs.in_sync(),
            db.lyrics.in_sync(),
            db.artists.in_sync(),
            db.liked_songs.in_sync(),
    {
        Database {
            users: open_table::<Users>("users", users),
            songs: open_table::<Songs>("songs", songs),
            lyrics: open_table::<Lyrics>("lyrics", lyrics),
            artists: open_table::<Artists>("artists", artists),
            liked_songs: open_table::<LikedSongs>("liked_songs", liked_songs),
        }
    }
}

/// A table with an index over the images of its two files.
pub fn open_table<S: TableSchema>(name: &str, stored: Stored) -> (table: Table<S>)
    requires
        stored.index@.len() % 12 == 0,
    ensures
        table@ == opened::<S>(stored.rows@),
        table.label() == name@,
        table.in_sync(),
{
    let file = TableFile::<S>::new(stored.rows).unwrap();
    let index = TableIndex::new(stored.index).unwrap();
    Table::<S>::new(String::from_str(name), file, Some(index)).unwrap()
}

} // verus!
