//! The row types of the song catalogue.
//!
//! Each is a plain struct of fields in a fixed order, the first of which is
//! the integer primary key, and implements `TableSchema`.

use crate::datatypes::{DType, DateTime, Int, Kind, Str, Value};
use crate::db::Database;
use crate::rows::{decode_fields, dtype_views, encode_fields, name_values, value_named};
use crate::table::{arity, texts, TableSchema};
use vstd::prelude::*;

verus! {

/// A user of the catalogue.
#[derive(Debug, PartialEq)]
pub struct Users {
    pub id: Int,
    pub email: Str,
    pub password: Str,
    pub salt: Str,
    pub language: Str,
    pub last_login: DateTime,
}

impl Users {
    pub fn new(
        id: Int,
        email: Str,
        password: Str,
        salt: Str,
        language: Str,
        last_login: DateTime,
    ) -> (row: Users)
        ensures
            row.id == id,
            row.email@ == email@,
            row.password@ == password@,
            row.salt@ == salt@,
            row.language@ == language@,
            row.last_login == last_login,
    {
        Users { id, email, password, salt, language, last_login }
    }

    /// The values of the fields, in order.
    pub fn values(&self) -> (values: Vec<DType>)
        ensures
            dtype_views(values@) == self.spec_values(),
            values@.len() == 6,
    {
        let values = vec![
            DType::Int(self.id),
            DType::Str(self.email.clone()),
            DType::Str(self.password.clone()),
            DType::Str(self.salt.clone()),
            DType::Str(self.language.clone()),
            DType::DateTime(self.last_login),
        ];
        assert(dtype_views(values@) =~= self.spec_values());
        values
    }

    /// The names of the fields, in order.
    pub fn names() -> (names: Vec<String>)
        ensures
            texts(names@) == Self::spec_fields(),
            names@.len() == 6,
    {
        let names = vec![
            "id".to_owned(),
            "email".to_owned(),
            "password".to_owned(),
            "salt".to_owned(),
            "language".to_owned(),
            "last_login".to_owned(),
        ];
        assert(texts(names@) =~= Self::spec_fields());
        names
    }
}

impl Clone for Users {
    fn clone(&self) -> (row: Users)
        ensures
            row.spec_values() == self.spec_values(),
    {
        let row = Users {
            id: self.id,
            email: self.email.clone(),
            password: self.password.clone(),
            salt: self.salt.clone(),
            language: self.language.clone(),
            last_login: self.last_login,
        };
        assert(row.spec_values() =~= self.spec_values());
        row
    }
}

impl TableSchema for Users {
    open spec fn spec_fields() -> Seq<Seq<char>> {
        seq!["id"@, "email"@, "password"@, "salt"@, "language"@, "last_login"@]
    }

    open spec fn spec_kinds() -> Seq<Kind> {
        seq![Kind::Int, Kind::Str, Kind::Str, Kind::Str, Kind::Str, Kind::DateTime]
    }

    open spec fn spec_values(&self) -> Seq<Value> {
        seq![
            Value::Int(self.id@),
            Value::Str(self.email@),
            Value::Str(self.password@),
            Value::Str(self.salt@),
            Value::Str(self.language@),
            Value::DateTime(self.last_login@),
        ]
    }

    proof fn lemma_schema() {
        reveal_strlit("id");
        reveal_strlit("email");
        reveal_strlit("password");
        reveal_strlit("salt");
        reveal_strlit("language");
        reveal_strlit("last_login");
        assert("id"@.len() != "email"@.len());
        assert("id"@.len() != "password"@.len());
        assert("id"@.len() != "salt"@.len());
        assert("id"@.len() != "language"@.len());
        assert("id"@.len() != "last_login"@.len());
        assert("email"@.len() != "password"@.len());
        assert("email"@.len() != "salt"@.len());
        assert("email"@.len() != "language"@.len());
        assert("email"@.len() != "last_login"@.len());
        assert("password"@.len() != "salt"@.len());
        assert("password"@[0] != "language"@[0]);
        assert("password"@.len() != "last_login"@.len());
        assert("salt"@.len() != "language"@.len());
        assert("salt"@.len() != "last_login"@.len());
        assert("language"@.len() != "last_login"@.len());
    }

    proof fn lemma_row(&self) {
    }

    fn from_(raw: Vec<(String, Vec<u8>)>) -> (row: Self) {
        assert(raw@.len() == crate::table::pair_names(raw@).len());
        let kinds = Self::kinds();
        assert(kinds@.len() == 6);
        let values = decode_fields(&kinds, &raw);
        assert(values@.len() == dtype_views(values@).len());
        assert(forall|i: int| 0 <= i < values@.len() ==> dtype_views(values@)[i] == values@[i]@);
        let id = match &values[0] {
            DType::Int(v) => *v,
            _ => Int::new(0),
        };
        let email = match &values[1] {
            DType::Str(v) => v.clone(),
            _ => Str::new(String::new()),
        };
        let password = match &values[2] {
            DType::Str(v) => v.clone(),
            _ => Str::new(String::new()),
        };
        let salt = match &values[3] {
            DType::Str(v) => v.clone(),
            _ => Str::new(String::new()),
        };
        let language = match &values[4] {
            DType::Str(v) => v.clone(),
            _ => Str::new(String::new()),
        };
        let last_login = match &values[5] {
            DType::DateTime(v) => *v,
            _ => DateTime::from_nanos(0),
        };
        let row = Users { id, email, password, salt, language, last_login };
        assert(row.spec_values() =~= dtype_views(values@));
        row
    }

    fn fields() -> (names: Vec<String>) {
        Self::names()
    }

    fn kinds() -> (kinds: Vec<Kind>) {
        let kinds = vec![Kind::Int, Kind::Str, Kind::Str, Kind::Str, Kind::Str, Kind::DateTime];
        assert(kinds@ =~= Self::spec_kinds());
        kinds
    }

    fn get(&self, field: String) -> (value: Option<DType>) {
        proof {
            Self::lemma_schema();
        }
        value_named(&Self::names(), &self.values(), &field)
    }

    fn get_id(&self) -> (id: i32) {
        self.id.get()
    }

    fn to_map(&self) -> (pairs: Vec<(String, DType)>) {
        name_values(Self::names(), &self.values())
    }

    fn serialize_to_vec(&self) -> (raw: Vec<(String, Vec<u8>)>) {
        encode_fields(Self::names(), &self.values())
    }

    fn serialize_to_map(&self) -> (raw: Vec<(String, Vec<u8>)>) {
        self.serialize_to_vec()
    }
}

/// An artist.
#[derive(Debug, PartialEq)]
pub struct Artists {
    pub id: Int,
    pub name: Str,
}

impl Artists {
    pub fn new(id: Int, name: Str) -> (row: Artists)
        ensures
            row.id == id,
            row.name@ == name@,
    {
        Artists { id, name }
    }

    /// The values of the fields, in order.
    pub fn values(&self) -> (values: Vec<DType>)
        ensures
            dtype_views(values@) == self.spec_values(),
            values@.len() == 2,
    {
        let values = vec![DType::Int(self.id), DType::Str(self.name.clone())];
        assert(dtype_views(values@) =~= self.spec_values());
        values
    }

    /// The names of the fields, in order.
    pub fn names() -> (names: Vec<String>)
        ensures
            texts(names@) == Self::spec_fields(),
            names@.len() == 2,
    {
        let names = vec!["id".to_owned(), "name".to_owned()];
        assert(texts(names@) =~= Self::spec_fields());
        names
    }
}

impl Clone for Artists {
    fn clone(&self) -> (row: Artists)
        ensures
            row.spec_values() == self.spec_values(),
    {
        let row = Artists { id: self.id, name: self.name.clone() };
        assert(row.spec_values() =~= self.spec_values());
        row
    }
}

impl TableSchema for Artists {
    open spec fn spec_fields() -> Seq<Seq<char>> {
        seq!["id"@, "name"@]
    }

    open spec fn spec_kinds() -> Seq<Kind> {
        seq![Kind::Int, Kind::Str]
    }

    open spec fn spec_values(&self) -> Seq<Value> {
        seq![Value::Int(self.id@), Value::Str(self.name@)]
    }

    proof fn lemma_schema() {
        reveal_strlit("id");
        reveal_strlit("name");
        assert("id"@.len() != "name"@.len());
    }

    proof fn lemma_row(&self) {
    }

    fn from_(raw: Vec<(String, Vec<u8>)>) -> (row: Self) {
        assert(raw@.len() == crate::table::pair_names(raw@).len());
        let kinds = Self::kinds();
        assert(kinds@.len() == 2);
        let values = decode_fields(&kinds, &raw);
        assert(values@.len() == dtype_views(values@).len());
        assert(forall|i: int| 0 <= i < values@.len() ==> dtype_views(values@)[i] == values@[i]@);
        let id = match &values[0] {
            DType::Int(v) => *v,
            _ => Int::new(0),
        };
        let name = match &values[1] {
            DType::Str(v) => v.clone(),
            _ => Str::new(String::new()),
        };
        let row = Artists { id, name };
        assert(row.spec_values() =~= dtype_views(values@));
        row
    }

    fn fields() -> (names: Vec<String>) {
        Self::names()
    }

    fn kinds() -> (kinds: Vec<Kind>) {
        let kinds = vec![Kind::Int, Kind::Str];
        assert(kinds@ =~= Self::spec_kinds());
        kinds
    }

    fn get(&self, field: String) -> (value: Option<DType>) {
        proof {
            Self::lemma_schema();
        }
        value_named(&Self::names(), &self.values(), &field)
    }

    fn get_id(&self) -> (id: i32) {
        self.id.get()
    }

    fn to_map(&self) -> (pairs: Vec<(String, DType)>) {
        name_values(Self::names(), &self.values())
    }

    fn serialize_to_vec(&self) -> (raw: Vec<(String, Vec<u8>)>) {
        encode_fields(Self::names(), &self.values())
    }

    fn serialize_to_map(&self) -> (raw: Vec<(String, Vec<u8>)>) {
        self.serialize_to_vec()
    }
}

/// A song, with the id of its artist.
#[derive(Debug, PartialEq)]
pub struct Songs {
    pub id: Int,
    pub name: Str,
    pub artist_id: Int,
}

impl Songs {
    pub fn new(id: Int, name: Str, artist_id: Int) -> (row: Songs)
        ensures
            row.id == id,
            row.name@ == name@,
            row.artist_id == artist_id,
    {
        Songs { id, name, artist_id }
    }

    /// The values of the fields, in order.
    pub fn values(&self) -> (values: Vec<DType>)
        ensures
            dtype_views(values@) == self.spec_values(),
            values@.len() == 3,
    {
        let values = vec![
            DType::Int(self.id),
            DType::Str(self.name.clone()),
            DType::Int(self.artist_id),
        ];
        assert(dtype_views(values@) =~= self.spec_values());
        values
    }

    /// The names of the fields, in order.
    pub fn names() -> (names: Vec<String>)
        ensures
            texts(names@) == Self::spec_fields(),
            names@.len() == 3,
    {
        let names = vec!["id".to_owned(), "name".to_owned(), "artist_id".to_owned()];
        assert(texts(names@) =~= Self::spec_fields());
        names
    }
}

impl Clone for Songs {
    fn clone(&self) -> (row: Songs)
        ensures
            row.spec_values() == self.spec_values(),
    {
        let row = Songs { id: self.id, name: self.name.clone(), artist_id: self.artist_id };
        assert(row.spec_values() =~= self.spec_values());
        row
    }
}

impl TableSchema for Songs {
    open spec fn spec_fields() -> Seq<Seq<char>> {
        seq!["id"@, "name"@, "artist_id"@]
    }

    open spec fn spec_kinds() -> Seq<Kind> {
        seq![Kind::Int, Kind::Str, Kind::Int]
    }

    open spec fn spec_values(&self) -> Seq<Value> {
        seq![Value::Int(self.id@), Value::Str(self.name@), Value::Int(self.artist_id@)]
    }

    proof fn lemma_schema() {
        reveal_strlit("id");
        reveal_strlit("name");
        reveal_strlit("artist_id");
        assert("id"@.len() != "name"@.len());
        assert("id"@.len() != "artist_id"@.len());
        assert("name"@.len() != "artist_id"@.len());
    }

    proof fn lemma_row(&self) {
    }

    fn from_(raw: Vec<(String, Vec<u8>)>) -> (row: Self) {
        assert(raw@.len() == crate::table::pair_names(raw@).len());
        let kinds = Self::kinds();
        assert(kinds@.len() == 3);
        let values = decode_fields(&kinds, &raw);
        assert(values@.len() == dtype_views(values@).len());
        assert(forall|i: int| 0 <= i < values@.len() ==> dtype_views(values@)[i] == values@[i]@);
        let id = match &values[0] {
            DType::Int(v) => *v,
            _ => Int::new(0),
        };
        let name = match &values[1] {
            DType::Str(v) => v.clone(),
            _ => Str::new(String::new()),
        };
        let artist_id = match &values[2] {
            DType::Int(v) => *v,
            _ => Int::new(0),
        };
        let row = Songs { id, name, artist_id };
        assert(row.spec_values() =~= dtype_views(values@));
        row
    }

    fn fields() -> (names: Vec<String>) {
        Self::names()
    }

    fn kinds() -> (kinds: Vec<Kind>) {
        let kinds = vec![Kind::Int, Kind::Str, Kind::Int];
        assert(kinds@ =~= Self::spec_kinds());
        kinds
    }

    fn get(&self, field: String) -> (value: Option<DType>) {
        proof {
            Self::lemma_schema();
        }
        value_named(&Self::names(), &self.values(), &field)
    }

    fn get_id(&self) -> (id: i32) {
        self.id.get()
    }

    fn to_map(&self) -> (pairs: Vec<(String, DType)>) {
        name_values(Self::names(), &self.values())
    }

    fn serialize_to_vec(&self) -> (raw: Vec<(String, Vec<u8>)>) {
        encode_fields(Self::names(), &self.values())
    }

    fn serialize_to_map(&self) -> (raw: Vec<(String, Vec<u8>)>) {
        self.serialize_to_vec()
    }
}

/// The lyrics of a song in one language.
#[derive(Debug, PartialEq)]
pub struct Lyrics {
    pub id: Int,
    pub text: Str,
    pub language: Str,
    pub song_id: Int,
}

impl Lyrics {
    pub fn new(id: Int, text: Str, language: Str, song_id: Int) -> (row: Lyrics)
        ensures
            row.id == id,
            row.text@ == text@,
            row.language@ == language@,
            row.song_id == song_id,
    {
        Lyrics { id, text, language, song_id }
    }

    /// The values of the fields, in order.
    pub fn values(&self) -> (values: Vec<DType>)
        ensures
            dtype_views(values@) == self.spec_values(),
            values@.len() == 4,
    {
        let values = vec![
            DType::Int(self.id),
            DType::Str(self.text.clone()),
            DType::Str(self.language.clone()),
            DType::Int(self.song_id),
        ];
        assert(dtype_views(values@) =~= self.spec_values());
        values
    }

    /// The names of the fields, in order.
    pub fn names() -> (names: Vec<String>)
        ensures
            texts(names@) == Self::spec_fields(),
            names@.len() == 4,
    {
        let names = vec![
            "id".to_owned(),
            "text".to_owned(),
            "language".to_owned(),
            "song_id".to_owned(),
        ];
        assert(texts(names@) =~= Self::spec_fields());
        names
    }
}

impl Clone for Lyrics {
    fn clone(&self) -> (row: Lyrics)
        ensures
            row.spec_values() == self.spec_values(),
    {
        let row = Lyrics {
            id: self.id,
            text: self.text.clone(),
            language: self.language.clone(),
            song_id: self.song_id,
        };
        assert(row.spec_values() =~= self.spec_values());
        row
    }
}

impl TableSchema for Lyrics {
    open spec fn spec_fields() -> Seq<Seq<char>> {
        seq!["id"@, "text"@, "language"@, "song_id"@]
    }

    open spec fn spec_kinds() -> Seq<Kind> {
        seq![Kind::Int, Kind::Str, Kind::Str, Kind::Int]
    }

    open spec fn spec_values(&self) -> Seq<Value> {
        seq![
            Value::Int(self.id@),
            Value::Str(self.text@),
            Value::Str(self.language@),
            Value::Int(self.song_id@),
        ]
    }

    proof fn lemma_schema() {
        reveal_strlit("id");
        reveal_strlit("text");
        reveal_strlit("language");
        reveal_strlit("song_id");
        assert("id"@.len() != "text"@.len());
        assert("id"@.len() != "language"@.len());
        assert("id"@.len() != "song_id"@.len());
        assert("text"@.len() != "language"@.len());
        assert("text"@.len() != "song_id"@.len());
        assert("language"@.len() != "song_id"@.len());
    }

    proof fn lemma_row(&self) {
    }

    fn from_(raw: Vec<(String, Vec<u8>)>) -> (row: Self) {
        assert(raw@.len() == crate::table::pair_names(raw@).len());
        let kinds = Self::kinds();
        assert(kinds@.len() == 4);
        let values = decode_fields(&kinds, &raw);
        assert(values@.len() == dtype_views(values@).len());
        assert(forall|i: int| 0 <= i < values@.len() ==> dtype_views(values@)[i] == values@[i]@);
        let id = match &values[0] {
            DType::Int(v) => *v,
            _ => Int::new(0),
        };
        let text = match &values[1] {
            DType::Str(v) => v.clone(),
            _ => Str::new(String::new()),
        };
        let language = match &values[2] {
            DType::Str(v) => v.clone(),
            _ => Str::new(String::new()),
        };
        let song_id = match &values[3] {
            DType::Int(v) => *v,
            _ => Int::new(0),
        };
        let row = Lyrics { id, text, language, song_id };
        assert(row.spec_values() =~= dtype_views(values@));
        row
    }

    fn fields() -> (names: Vec<String>) {
        Self::names()
    }

    fn kinds() -> (kinds: Vec<Kind>) {
        let kinds = vec![Kind::Int, Kind::Str, Kind::Str, Kind::Int];
        assert(kinds@ =~= Self::spec_kinds());
        kinds
    }

    fn get(&self, field: String) -> (value: Option<DType>) {
        proof {
            Self::lemma_schema();
        }
        value_named(&Self::names(), &self.values(), &field)
    }

    fn get_id(&self) -> (id: i32) {
        self.id.get()
    }

    fn to_map(&self) -> (pairs: Vec<(String, DType)>) {
        name_values(Self::names(), &self.values())
    }

    fn serialize_to_vec(&self) -> (raw: Vec<(String, Vec<u8>)>) {
        encode_fields(Self::names(), &self.values())
    }

    fn serialize_to_map(&self) -> (raw: Vec<(String, Vec<u8>)>) {
        self.serialize_to_vec()
    }
}

/// A user's liking of a song.
#[derive(Debug, PartialEq)]
pub struct LikedSongs {
    pub id: Int,
    pub song_id: Int,
    pub user_id: Int,
    pub created_at: DateTime,
}

impl LikedSongs {
    pub fn new(id: Int, song_id: Int, user_id: Int, created_at: DateTime) -> (row: LikedSongs)
        ensures
            row.id == id,
            row.song_id == song_id,
            row.user_id == user_id,
            row.created_at == created_at,
    {
        LikedSongs { id, song_id, user_id, created_at }
    }

    /// The values of the fields, in order.
    pub fn values(&self) -> (values: Vec<DType>)
        ensures
            dtype_views(values@) == self.spec_values(),
            values@.len() == 4,
    {
        let values = vec![
            DType::Int(self.id),
            DType::Int(self.song_id),
            DType::Int(self.user_id),
            DType::DateTime(self.created_at),
        ];
        assert(dtype_views(values@) =~= self.spec_values());
        values
    }

    /// The names of the fields, in order.
    pub fn names() -> (names: Vec<String>)
        ensures
            texts(names@) == Self::spec_fields(),
            names@.len() == 4,
    {
        let names = vec![
            "id".to_owned(),
            "song_id".to_owned(),
            "user_id".to_owned(),
            "created_at".to_owned(),
        ];
        assert(texts(names@) =~= Self::spec_fields());
        names
    }
}

impl Clone for LikedSongs {
    fn clone(&self) -> (row: LikedSongs)
        ensures
            row.spec_values() == self.spec_values(),
    {
        let row = LikedSongs {
            id: self.id,
            song_id: self.song_id,
            user_id: self.user_id,
            created_at: self.created_at,
        };
        assert(row.spec_values() =~= self.spec_values());
        row
    }
}

impl TableSchema for LikedSongs {
    open spec fn spec_fields() -> Seq<Seq<char>> {
        seq!["id"@, "song_id"@, "user_id"@, "created_at"@]
    }

    open spec fn spec_kinds() -> Seq<Kind> {
        seq![Kind::Int, Kind::Int, Kind::Int, Kind::DateTime]
    }

    open spec fn spec_values(&self) -> Seq<Value> {
        seq![
            Value::Int(self.id@),
            Value::Int(self.song_id@),
            Value::Int(self.user_id@),
            Value::DateTime(self.created_at@),
        ]
    }

    proof fn lemma_schema() {
        reveal_strlit("id");
        reveal_strlit("song_id");
        reveal_strlit("user_id");
        reveal_strlit("created_at");
        assert("id"@.len() != "song_id"@.len());
        assert("id"@.len() != "user_id"@.len());
        assert("id"@.len() != "created_at"@.len());
        assert("song_id"@[0] != "user_id"@[0]);
        assert("song_id"@.len() != "created_at"@.len());
        assert("user_id"@.len() != "created_at"@.len());
    }

    proof fn lemma_row(&self) {
    }

    fn from_(raw: Vec<(String, Vec<u8>)>) -> (row: Self) {
        assert(raw@.len() == crate::table::pair_names(raw@).len());
        let kinds = Self::kinds();
        assert(kinds@.len() == 4);
        let values = decode_fields(&kinds, &raw);
        assert(values@.len() == dtype_views(values@).len());
        assert(forall|i: int| 0 <= i < values@.len() ==> dtype_views(values@)[i] == values@[i]@);
        let id = match &values[0] {
            DType::Int(v) => *v,
            _ => Int::new(0),
        };
        let song_id = match &values[1] {
            DType::Int(v) => *v,
            _ => Int::new(0),
        };
        let user_id = match &values[2] {
            DType::Int(v) => *v,
            _ => Int::new(0),
        };
        let created_at = match &values[3] {
            DType::DateTime(v) => *v,
            _ => DateTime::from_nanos(0),
        };
        let row = LikedSongs { id, song_id, user_id, created_at };
        assert(row.spec_values() =~= dtype_views(values@));
        row
    }

    fn fields() -> (names: Vec<String>) {
        Self::names()
    }

    fn kinds() -> (kinds: Vec<Kind>) {
        let kinds = vec![Kind::Int, Kind::Int, Kind::Int, Kind::DateTime];
        assert(kinds@ =~= Self::spec_kinds());
        kinds
    }

    fn get(&self, field: String) -> (value: Option<DType>) {
        proof {
            Self::lemma_schema();
        }
        value_named(&Self::names(), &self.values(), &field)
    }

    fn get_id(&self) -> (id: i32) {
        self.id.get()
    }

    fn to_map(&self) -> (pairs: Vec<(String, DType)>) {
        name_values(Self::names(), &self.values())
    }

    fn serialize_to_vec(&self) -> (raw: Vec<(String, Vec<u8>)>) {
        encode_fields(Self::names(), &self.values())
    }

    fn serialize_to_map(&self) -> (raw: Vec<(String, Vec<u8>)>) {
        self.serialize_to_vec()
    }
}

impl Artists {
    /// The songs of this artist.  The catalogue keeps no list of them yet:
    /// the song table is consulted and no song is returned.
    pub fn get_songs(&self, db: &mut Database) -> (songs: Vec<Songs>)
        ensures
            songs@.len() == 0,
            final(db).views() == old(db).views(),
    {
        let _ = db.songs.get(1);
        Vec::new()
    }
}

impl Songs {
    /// The artist of this song, where the artist table holds one.
    pub fn get_artist(&self, db: &mut Database) -> (artist: Option<Artists>)
        ensures
            final(db).views() == old(db).views(),
            match old(db).artists@.lookup(arity::<Artists>(), self.artist_id@) {
                Ok(fields) => artist matches Some(row) && row.spec_values()
                    == crate::datatypes::decode_values(Artists::spec_kinds(), fields),
                Err(_) => artist is None,
            },
    {
        match db.artists.get(self.artist_id.get()) {
            Ok(row) => Some(row),
            Err(_) => None,
        }
    }
}

impl Lyrics {
    /// The song of these lyrics, where the song table holds one.
    pub fn get_song(&self, db: &mut Database) -> (song: Option<Songs>)
        ensures
            final(db).views() == old(db).views(),
            match old(db).songs@.lookup(arity::<Songs>(), self.song_id@) {
                Ok(fields) => song matches Some(row) && row.spec_values()
                    == crate::datatypes::decode_values(Songs::spec_kinds(), fields),
                Err(_) => song is None,
            },
    {
        match db.songs.get(self.song_id.get()) {
            Ok(row) => Some(row),
            Err(_) => None,
        }
    }
}

impl LikedSongs {
    /// The user who likes, where the user table holds one.
    pub fn get_user(&self, db: &mut Database) -> (user: Option<Users>)
        ensures
            final(db).views() == old(db).views(),
            match old(db).users@.lookup(arity::<Users>(), self.user_id@) {
                Ok(fields) => user matches Some(row) && row.spec_values()
                    == crate::datatypes::decode_values(Users::spec_kinds(), fields),
                Err(_) => user is None,
            },
    {
        match db.users.get(self.user_id.get()) {
            Ok(row) => Some(row),
            Err(_) => None,
        }
    }

    /// The song that is liked, where the song table holds one.
    pub fn get_song(&self, db: &mut Database) -> (song: Option<Songs>)
        ensures
            final(db).views() == old(db).views(),
            match old(db).songs@.lookup(arity::<Songs>(), self.song_id@) {
                Ok(fields) => song matches Some(row) && row.spec_values()
                    == crate::datatypes::decode_values(Songs::spec_kinds(), fields),
                Err(_) => song is None,
            },
    {
        match db.songs.get(self.song_id.get()) {
            Ok(row) => Some(row),
            Err(_) => None,
        }
    }
}

} // verus!
