//! The command shell of the song catalogue, without its terminal: a line
//! of input goes in, and what is to be shown comes out as a list of
//! replies.
//!
//! A line is a command name followed by arguments; both are runs of word
//! characters.  The commands are `get`, `insert`, `update` and `delete` on
//! the tables `artists` and `songs`, and `help` and `exit`.

use crate::datatypes::{decode_values, encode_values, Int, Str, Value};
use crate::db::{Database, DatabaseView};
use crate::framing::{frame, row_id};
use crate::number::{parse_i32, parsed_i32};
use crate::rows::same_text;
use crate::schemas::{Artists, Songs};
use crate::table::{arity, texts, Fault, TableSchema, TableView};
use regex::Regex;
use vstd::prelude::*;
use vstd::string::StringSliceAdditionalSpecFns;
use vstd::utf8::{decode_utf8, encode_utf8, is_char_boundary};

verus! {

/// The first run of word characters of a line, behind any white space at
/// its start, with the byte offset at which the run ends; `None` where the
/// line does not begin that way.
pub uninterp spec fn leading_word(input: Seq<char>) -> Option<(Seq<char>, int)>;

/// The runs of word characters of a text, in order.
pub uninterp spec fn words(input: Seq<char>) -> Seq<Seq<char>>;

/// `Regex::captures` with the pattern `^\s*?(\w+)\s*?.*?$`: the text of the
/// first capture group and the byte offset of its end, which the regex
/// crate places on a character boundary.
#[verifier::external_body]
fn find_leading_word(input: &str) -> (r: Option<(String, usize)>)
    ensures
        match r {
            Some(found) => leading_word(input@) == Some((found.0@, found.1 as int))
                && is_char_boundary(input.spec_bytes(), found.1 as int),
            None => leading_word(input@) is None,
        },
{
    let pattern = Regex::new(r#"^\s*?(\w+)\s*?.*?$"#).unwrap();
    let word = pattern.captures(input)?.get(1)?;
    Some((word.as_str().to_string(), word.end()))
}

/// `Regex::captures_iter` with the pattern `\s*?([\w_]+)\s*?`: the text of
/// the first capture group of each match, in order.
#[verifier::external_body]
fn find_words(input: &str) -> (r: Vec<String>)
    ensures
        texts(r@) == words(input@),
{
    let pattern = Regex::new(r#"\s*?([\w_]+)\s*?"#).unwrap();
    let mut found = Vec::new();
    for m in pattern.captures_iter(input) {
        found.push(m.get(1).unwrap().as_str().to_string());
    }
    found
}

/// A command: its name and its arguments.
#[derive(Debug, PartialEq)]
pub struct Command {
    pub name: String,
    pub arguments: Vec<String>,
}

impl Clone for Command {
    fn clone(&self) -> (r: Command)
        ensures
            r@ == self@,
    {
        let n = self.arguments.len();
        let mut arguments: Vec<String> = Vec::new();
        let mut i: usize = 0;
        while i < n
            invariant
                n == self.arguments@.len(),
                i <= n,
                arguments@.len() == i,
                forall|k: int| 0 <= k < i ==> (#[trigger] arguments@[k])@ == self.arguments@[k]@,
            decreases n - i,
        {
            arguments.push(self.arguments[i].clone());
            i = i + 1;
        }
        assert(texts(arguments@) =~= texts(self.arguments@));
        Command { name: self.name.clone(), arguments }
    }
}

/// A command as the shell sees it.
pub struct CommandView {
    pub name: Seq<char>,
    pub arguments: Seq<Seq<char>>,
}

impl View for Command {
    type V = CommandView;

    open spec fn view(&self) -> CommandView {
        CommandView { name: self.name@, arguments: texts(self.arguments@) }
    }
}

/// What the shell shows in answer to a line.
#[derive(Debug, PartialEq)]
pub enum Reply {
    /// How `get` is used: `get [artists, songs] <id>`.
    GetUsage,
    /// How `insert` and `update` are used.
    InsertUsage,
    /// How `delete` is used: `delete [artists, songs] <id>`.
    DeleteUsage,
    /// The text is no id.
    InvalidId(String),
    /// An update was given a text that is no id of an artist.
    InvalidArtistKey(String),
    /// An insertion was given a text that is no id of an artist.
    InvalidForeignKey(String),
    /// A row of the artist table has exactly two fields.
    ArtistsArity,
    /// A row of the song table has exactly three fields.
    SongsArity,
    /// The artist that was asked for.
    Artist(Artists),
    /// The song that was asked for.
    Song(Songs),
    /// The operation failed, with the message of the error.
    Failed(String),
    /// The shell does not serve the table of this name.
    Unsupported(String),
    /// An artist with this id was stored.
    CreatedArtist(i32),
    /// A song with this id was stored.
    CreatedSong(i32),
    /// The artist with this id was replaced.
    UpdatedArtist(i32),
    /// The song with this id was replaced.
    UpdatedSong(i32),
    /// The command that is about to be carried out.
    Echo(Command),
    /// A row was deleted.
    Deleted,
    /// The list of commands.
    Help,
    /// The line is no command.
    Unrecognized,
    /// The shell is to end.
    Exit,
}

/// A reply as the shell states it.
pub enum ReplyView {
    GetUsage,
    InsertUsage,
    DeleteUsage,
    InvalidId(Seq<char>),
    InvalidArtistKey(Seq<char>),
    InvalidForeignKey(Seq<char>),
    ArtistsArity,
    SongsArity,
    Artist(Seq<Value>),
    Song(Seq<Value>),
    Failed(Seq<char>),
    Unsupported(Seq<char>),
    CreatedArtist(i32),
    CreatedSong(i32),
    UpdatedArtist(i32),
    UpdatedSong(i32),
    Echo(CommandView),
    Deleted,
    Help,
    Unrecognized,
    Exit,
}

impl View for Reply {
    type V = ReplyView;

    open spec fn view(&self) -> ReplyView {
        match self {
            Reply::GetUsage => ReplyView::GetUsage,
            Reply::InsertUsage => ReplyView::InsertUsage,
            Reply::DeleteUsage => ReplyView::DeleteUsage,
            Reply::InvalidId(text) => ReplyView::InvalidId(text@),
            Reply::InvalidArtistKey(text) => ReplyView::InvalidArtistKey(text@),
            Reply::InvalidForeignKey(text) => ReplyView::InvalidForeignKey(text@),
            Reply::ArtistsArity => ReplyView::ArtistsArity,
            Reply::SongsArity => ReplyView::SongsArity,
            Reply::Artist(row) => ReplyView::Artist(row.spec_values()),
            Reply::Song(row) => ReplyView::Song(row.spec_values()),
            Reply::Failed(text) => ReplyView::Failed(text@),
            Reply::Unsupported(text) => ReplyView::Unsupported(text@),
            Reply::CreatedArtist(id) => ReplyView::CreatedArtist(*id),
            Reply::CreatedSong(id) => ReplyView::CreatedSong(*id),
            Reply::UpdatedArtist(id) => ReplyView::UpdatedArtist(*id),
            Reply::UpdatedSong(id) => ReplyView::UpdatedSong(*id),
            Reply::Echo(command) => ReplyView::Echo(command@),
            Reply::Deleted => ReplyView::Deleted,
            Reply::Help => ReplyView::Help,
            Reply::Unrecognized => ReplyView::Unrecognized,
            Reply::Exit => ReplyView::Exit,
        }
    }
}

/// The text of a line behind a byte offset.
pub open spec fn text_behind(input: Seq<char>, end: int) -> Seq<char> {
    decode_utf8(encode_utf8(input).subrange(end, encode_utf8(input).len() as int))
}

/// The command that a line states: its leading word is the name, the words
/// behind that are the arguments.
pub open spec fn command_of(input: Seq<char>) -> Option<CommandView> {
    match leading_word(input) {
        Some(found) => Some(
            CommandView { name: found.0, arguments: words(text_behind(input, found.1)) },
        ),
        None => None,
    }
}

/// What an artist with the given id and name holds.
pub open spec fn artist_values(id: i32, name: Seq<char>) -> Seq<Value> {
    seq![Value::Int(id), Value::Str(name)]
}

/// What a song with the given id, name and artist holds.
pub open spec fn song_values(id: i32, name: Seq<char>, artist_id: i32) -> Seq<Value> {
    seq![Value::Int(id), Value::Str(name), Value::Int(artist_id)]
}

/// The reply to a lookup in a table.
pub open spec fn shown(found: Result<Seq<Value>, Fault>, artist: bool) -> ReplyView {
    match found {
        Ok(values) => if artist {
            ReplyView::Artist(values)
        } else {
            ReplyView::Song(values)
        },
        Err(fault) => ReplyView::Failed(fault.message),
    }
}

/// What a table finds for an id, decoded as a row of type `S`.
pub open spec fn looked_up<S: TableSchema>(table: TableView, id: i32) -> Result<Seq<Value>, Fault> {
    match table.lookup(arity::<S>(), id) {
        Ok(fields) => Ok(decode_values(S::spec_kinds(), fields)),
        Err(fault) => Err(fault),
    }
}

/// The replies of `get`.
pub open spec fn get_replies(db: DatabaseView, arguments: Seq<Seq<char>>) -> Seq<ReplyView> {
    if arguments.len() != 2 {
        seq![ReplyView::GetUsage]
    } else {
        match parsed_i32(arguments[1]) {
            None => seq![ReplyView::InvalidId(arguments[1])],
            Some(id) => {
                if arguments[0] == "artists"@ {
                    seq![shown(looked_up::<Artists>(db.artists, id), true)]
                } else if arguments[0] == "songs"@ {
                    seq![shown(looked_up::<Songs>(db.songs, id), false)]
                } else {
                    seq![ReplyView::Unsupported(arguments[0])]
                }
            },
        }
    }
}

/// What a table does with a row on `insert` or `update`.
pub open spec fn stored(table: TableView, n: nat, values: Seq<Value>, replace: bool) -> (
    TableView,
    Result<(), Fault>,
) {
    let fields = encode_values(values);
    if replace {
        table.update(n, row_id(fields), frame(fields))
    } else {
        let made = table.create(n, row_id(fields), frame(fields));
        (
            made.0,
            match made.1 {
                Ok(_) => Ok(()),
                Err(fault) => Err(fault),
            },
        )
    }
}

/// The reply to a row that was to be stored.
pub open spec fn stored_reply(
    outcome: Result<(), Fault>,
    id: i32,
    artist: bool,
    replace: bool,
) -> ReplyView {
    match outcome {
        Err(fault) => ReplyView::Failed(fault.message),
        Ok(_) => if artist {
            if replace {
                ReplyView::UpdatedArtist(id)
            } else {
                ReplyView::CreatedArtist(id)
            }
        } else {
            if replace {
                ReplyView::UpdatedSong(id)
            } else {
                ReplyView::CreatedSong(id)
            }
        },
    }
}

/// The catalogue after `insert` (or, with `replace`, `update`) and the
/// replies.
pub open spec fn store_outcome(db: DatabaseView, arguments: Seq<Seq<char>>, replace: bool) -> (
    DatabaseView,
    Seq<ReplyView>,
) {
    if arguments.len() < 3 {
        (db, seq![ReplyView::InsertUsage])
    } else if arguments[0] == "artists"@ {
        if arguments.len() != 3 {
            (db, seq![ReplyView::ArtistsArity])
        } else {
            match parsed_i32(arguments[1]) {
                None => (db, seq![ReplyView::InvalidId(arguments[1])]),
                Some(id) => {
                    let done = stored(
                        db.artists,
                        arity::<Artists>(),
                        artist_values(id, arguments[2]),
                        replace,
                    );
                    (
                        DatabaseView { artists: done.0, ..db },
                        seq![stored_reply(done.1, id, true, replace)],
                    )
                },
            }
        }
    } else if arguments[0] == "songs"@ {
        if arguments.len() != 4 {
            (db, seq![ReplyView::SongsArity])
        } else {
            match parsed_i32(arguments[1]) {
                None => (db, seq![ReplyView::InvalidId(arguments[1])]),
                Some(id) => match parsed_i32(arguments[3]) {
                    None => (
                        db,
                        seq![
                            if replace {
                                ReplyView::InvalidArtistKey(arguments[1])
                            } else {
                                ReplyView::InvalidForeignKey(arguments[1])
                            },
                        ],
                    ),
                    Some(artist_id) => match db.artists.lookup(arity::<Artists>(), artist_id) {
                        Err(fault) => (db, seq![ReplyView::Failed(fault.message)]),
                        Ok(_) => {
                            let done = stored(
                                db.songs,
                                arity::<Songs>(),
                                song_values(id, arguments[2], artist_id),
                                replace,
                            );
                            (
                                DatabaseView { songs: done.0, ..db },
                                seq![stored_reply(done.1, id, false, replace)],
                            )
                        },
                    },
                },
            }
        }
    } else {
        (db, seq![ReplyView::Unsupported(arguments[0])])
    }
}

/// The reply to a deletion.
pub open spec fn deleted_reply(outcome: Result<(), Fault>) -> ReplyView {
    match outcome {
        Ok(_) => ReplyView::Deleted,
        Err(fault) => ReplyView::Failed(fault.message),
    }
}

/// The catalogue after `delete` and the replies.
pub open spec fn delete_outcome(db: DatabaseView, command: CommandView) -> (
    DatabaseView,
    Seq<ReplyView>,
) {
    let arguments = command.arguments;
    if arguments.len() != 2 {
        (db, seq![ReplyView::DeleteUsage])
    } else {
        match parsed_i32(arguments[1]) {
            None => (db, seq![ReplyView::Echo(command), ReplyView::InvalidId(arguments[1])]),
            Some(id) => {
                if arguments[0] == "artists"@ {
                    let done = db.artists.delete(arity::<Artists>(), id);
                    (
                        DatabaseView { artists: done.0, ..db },
                        seq![ReplyView::Echo(command), deleted_reply(done.1)],
                    )
                } else if arguments[0] == "songs"@ {
                    let done = db.songs.delete(arity::<Songs>(), id);
                    (
                        DatabaseView { songs: done.0, ..db },
                        seq![ReplyView::Echo(command), deleted_reply(done.1)],
                    )
                } else {
                    (db, seq![ReplyView::Echo(command), ReplyView::Unsupported(arguments[0])])
                }
            },
        }
    }
}

/// The catalogue after a command and the replies.
pub open spec fn command_outcome(db: DatabaseView, command: CommandView) -> (
    DatabaseView,
    Seq<ReplyView>,
) {
    if command.name == "get"@ {
        (db, get_replies(db, command.arguments))
    } else if command.name == "update"@ {
        store_outcome(db, command.arguments, true)
    } else if command.name == "insert"@ {
        store_outcome(db, command.arguments, false)
    } else if command.name == "delete"@ {
        delete_outcome(db, command)
    } else if command.name == "exit"@ {
        (db, seq![ReplyView::Exit])
    } else {
        (db, seq![ReplyView::Help])
    }
}

/// The catalogue after a line and the replies.
pub open spec fn line_outcome(db: DatabaseView, input: Seq<char>) -> (
    DatabaseView,
    Seq<ReplyView>,
) {
    match command_of(input) {
        Some(command) => command_outcome(db, command),
        None => (db, seq![ReplyView::Unrecognized, ReplyView::Help]),
    }
}

/// What a list of replies states.
pub open spec fn reply_views(replies: Seq<Reply>) -> Seq<ReplyView> {
    Seq::new(replies.len(), |i: int| replies[i]@)
}

/// The shell: the catalogue it serves.
pub struct Playground {
    db: Database,
}

impl View for Playground {
    type V = DatabaseView;

    closed spec fn view(&self) -> DatabaseView {
        self.db.views()
    }
}

/// A list with one reply.
fn one(reply: Reply) -> (replies: Vec<Reply>)
    ensures
        reply_views(replies@) == seq![reply@],
{
    let replies = vec![reply];
    assert(reply_views(replies@) =~= seq![reply@]);
    replies
}

/// A list with two replies.
fn two(first: Reply, second: Reply) -> (replies: Vec<Reply>)
    ensures
        reply_views(replies@) == seq![first@, second@],
{
    let replies = vec![first, second];
    assert(reply_views(replies@) =~= seq![first@, second@]);
    replies
}

impl Playground {
    /// A shell over a catalogue.
    pub fn new(db: Database) -> (shell: Playground)
        ensures
            shell@ == db.views(),
    {
        Playground { db }
    }

    /// The catalogue, for whoever keeps its files.
    pub fn database(&self) -> (db: &Database)
        ensures
            db.views() == self@,
    {
        &self.db
    }

    /// Answers one line of input.
    pub fn answer(&mut self, input: &str) -> (replies: Vec<Reply>)
        ensures
            final(self)@ == line_outcome(old(self)@, input@).0,
            reply_views(replies@) == line_outcome(old(self)@, input@).1,
    {
        match Self::parse_db_operation(input) {
            Some(command) => self.execute(command),
            None => two(Reply::Unrecognized, Reply::Help),
        }
    }

    /// Carries out one command.
    pub fn execute(&mut self, command: Command) -> (replies: Vec<Reply>)
        ensures
            final(self)@ == command_outcome(old(self)@, command@).0,
            reply_views(replies@) == command_outcome(old(self)@, command@).1,
    {
        if same_text(command.name.as_str(), "get") {
            self.get(command)
        } else if same_text(command.name.as_str(), "update") {
            self.update(command)
        } else if same_text(command.name.as_str(), "insert") {
            self.insert(command)
        } else if same_text(command.name.as_str(), "delete") {
            self.delete(command)
        } else if same_text(command.name.as_str(), "exit") {
            one(Reply::Exit)
        } else {
            self.help()
        }
    }

    /// The command that a line states.
    pub fn parse_db_operation(input: &str) -> (r: Option<Command>)
        ensures
            match r {
                Some(command) => command_of(input@) == Some(command@),
                None => command_of(input@) is None,
            },
    {
        match find_leading_word(input) {
            Some((name, end)) => {
                let (_, rest) = input.split_at(end);
                proof {
                    vstd::utf8::encode_utf8_decode_utf8(rest@);
                }
                let arguments = find_words(rest);
                Some(Command { name, arguments })
            },
            None => None,
        }
    }

    /// `get <table> <id>`: shows the row with the id.
    pub fn get(&mut self, command: Command) -> (replies: Vec<Reply>)
        ensures
            final(self)@ == old(self)@,
            reply_views(replies@) == get_replies(old(self)@, command@.arguments),
    {
        if command.arguments.len() != 2 {
            return one(Reply::GetUsage);
        }
        let id = match parse_i32(command.arguments[1].as_str()) {
            Some(id) => id,
            None => {
                return one(Reply::InvalidId(command.arguments[1].clone()));
            },
        };
        if same_text(command.arguments[0].as_str(), "artists") {
            match self.db.artists.get(id) {
                Ok(row) => one(Reply::Artist(row)),
                Err(e) => one(Reply::Failed(e.message)),
            }
        } else if same_text(command.arguments[0].as_str(), "songs") {
            match self.db.songs.get(id) {
                Ok(row) => one(Reply::Song(row)),
                Err(e) => one(Reply::Failed(e.message)),
            }
        } else {
            one(Reply::Unsupported(command.arguments[0].clone()))
        }
    }

    /// `update <table> <id> <field> ...`: replaces the row with the id.
    pub fn update(&mut self, command: Command) -> (replies: Vec<Reply>)
        ensures
            final(self)@ == store_outcome(old(self)@, command@.arguments, true).0,
            reply_views(replies@) == store_outcome(old(self)@, command@.arguments, true).1,
    {
        self.store(command, true)
    }

    /// `insert <table> <id> <field> ...`: stores a row.
    pub fn insert(&mut self, command: Command) -> (replies: Vec<Reply>)
        ensures
            final(self)@ == store_outcome(old(self)@, command@.arguments, false).0,
            reply_views(replies@) == store_outcome(old(self)@, command@.arguments, false).1,
    {
        self.store(command, false)
    }

    /// Stores the row that the arguments describe, in place of the row
    /// with its id where `replace` is set.
    fn store(&mut self, command: Command, replace: bool) -> (replies: Vec<Reply>)
        ensures
            final(self)@ == store_outcome(old(self)@, command@.arguments, replace).0,
            reply_views(replies@) == store_outcome(old(self)@, command@.arguments, replace).1,
    {
        if command.arguments.len() < 3 {
            return one(Reply::InsertUsage);
        }
        if same_text(command.arguments[0].as_str(), "artists") {
            if command.arguments.len() != 3 {
                return one(Reply::ArtistsArity);
            }
            let id = match parse_i32(command.arguments[1].as_str()) {
                Some(id) => id,
                None => {
                    return one(Reply::InvalidId(command.arguments[1].clone()));
                },
            };
            let artist = Artists { id: Int::new(id), name: Str::new(command.arguments[2].clone()) };
            assert(artist.spec_values() =~= artist_values(id, command@.arguments[2]));
            let outcome = if replace {
                self.db.artists.update(artist)
            } else {
                match self.db.artists.create(artist) {
                    Ok(_) => Ok(()),
                    Err(e) => Err(e),
                }
            };
            match outcome {
                Ok(_) => one(
                    if replace {
                        Reply::UpdatedArtist(id)
                    } else {
                        Reply::CreatedArtist(id)
                    },
                ),
                Err(e) => one(Reply::Failed(e.message)),
            }
        } else if same_text(command.arguments[0].as_str(), "songs") {
            if command.arguments.len() != 4 {
                return one(Reply::SongsArity);
            }
            let id = match parse_i32(command.arguments[1].as_str()) {
                Some(id) => id,
                None => {
                    return one(Reply::InvalidId(command.arguments[1].clone()));
                },
            };
            let artist_id = match parse_i32(command.arguments[3].as_str()) {
                Some(id) => id,
                None => {
                    return one(
                        if replace {
                            Reply::InvalidArtistKey(command.arguments[1].clone())
                        } else {
                            Reply::InvalidForeignKey(command.arguments[1].clone())
                        },
                    );
                },
            };
            match self.db.artists.get(artist_id) {
                Ok(_) => {},
                Err(e) => {
                    return one(Reply::Failed(e.message));
                },
            }
            let song = Songs {
                id: Int::new(id),
                name: Str::new(command.arguments[2].clone()),
                artist_id: Int::new(artist_id),
            };
            assert(song.spec_values() =~= song_values(id, command@.arguments[2], artist_id));
            let outcome = if replace {
                self.db.songs.update(song)
            } else {
                match self.db.songs.create(song) {
                    Ok(_) => Ok(()),
                    Err(e) => Err(e),
                }
            };
            match outcome {
                Ok(_) => one(
                    if replace {
                        Reply::UpdatedSong(id)
                    } else {
                        Reply::CreatedSong(id)
                    },
                ),
                Err(e) => one(Reply::Failed(e.message)),
            }
        } else {
            one(Reply::Unsupported(command.arguments[0].clone()))
        }
    }

    /// `delete <table> <id>`: removes the row with the id.
    pub fn delete(&mut self, command: Command) -> (replies: Vec<Reply>)
        ensures
            final(self)@ == delete_outcome(old(self)@, command@).0,
            reply_views(replies@) == delete_outcome(old(self)@, command@).1,
    {
        if command.arguments.len() != 2 {
            return one(Reply::DeleteUsage);
        }
        let table = command.arguments[0].clone();
        let text = command.arguments[1].clone();
        let echo = Reply::Echo(command);
        let id = match parse_i32(text.as_str()) {
            Some(id) => id,
            None => {
                return two(echo, Reply::InvalidId(text));
            },
        };
        if same_text(table.as_str(), "artists") {
            match self.db.artists.delete(id) {
                Ok(_) => two(echo, Reply::Deleted),
                Err(e) => two(echo, Reply::Failed(e.message)),
            }
        } else if same_text(table.as_str(), "songs") {
            match self.db.songs.delete(id) {
                Ok(_) => two(echo, Reply::Deleted),
                Err(e) => two(echo, Reply::Failed(e.message)),
            }
        } else {
            two(echo, Reply::Unsupported(table))
        }
    }

    /// `help`: the list of commands.
    pub fn help(&self) -> (replies: Vec<Reply>)
        ensures
            reply_views(replies@) == seq![ReplyView::Help],
    {
        one(Reply::Help)
    }
}

} // verus!
