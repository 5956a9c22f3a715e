use versebase::datatypes::{Int, Str};
use versebase::db::{Database, Stored};
use versebase::schemas::{Artists, Songs};
use versebase::view::{Command, Playground, Reply};

fn empty() -> Stored {
    Stored { rows: Vec::new(), index: Vec::new() }
}

fn shell() -> Playground {
    Playground::new(Database::new(empty(), empty(), empty(), empty(), empty()))
}

fn command(name: &str, arguments: &[&str]) -> Command {
    Command { name: name.to_string(), arguments: arguments.iter().map(|a| a.to_string()).collect() }
}

#[test]
fn a_line_is_a_name_and_arguments() {
    assert_eq!(Playground::parse_db_operation("get artists 1"), Some(command("get", &["artists", "1"])));
    assert_eq!(
        Playground::parse_db_operation("  insert   songs 1 Underdog 2  "),
        Some(command("insert", &["songs", "1", "Underdog", "2"]))
    );
    assert_eq!(Playground::parse_db_operation("help"), Some(command("help", &[])));
    assert_eq!(
        Playground::parse_db_operation("update artists 1 Mötley_Crüe"),
        Some(command("update", &["artists", "1", "Mötley_Crüe"]))
    );
    assert_eq!(
        Playground::parse_db_operation("get artists; 1, 2"),
        Some(command("get", &["artists", "1", "2"]))
    );
}

#[test]
fn a_line_without_a_leading_word_is_no_command() {
    assert_eq!(Playground::parse_db_operation(""), None);
    assert_eq!(Playground::parse_db_operation("   "), None);
    assert_eq!(Playground::parse_db_operation("!get artists 1"), None);
    assert_eq!(shell().answer(""), vec![Reply::Unrecognized, Reply::Help]);
    assert_eq!(shell().answer("?"), vec![Reply::Unrecognized, Reply::Help]);
}

#[test]
fn unknown_commands_and_help_show_the_help() {
    assert_eq!(shell().answer("help"), vec![Reply::Help]);
    assert_eq!(shell().answer("select artists"), vec![Reply::Help]);
    assert_eq!(shell().answer("exit"), vec![Reply::Exit]);
    assert_eq!(shell().help(), vec![Reply::Help]);
}

#[test]
fn insert_and_get_artists() {
    let mut shell = shell();
    assert_eq!(shell.answer("insert artists 1 Slayer"), vec![Reply::CreatedArtist(1)]);
    assert_eq!(shell.answer("insert artists 2 Kasabian"), vec![Reply::CreatedArtist(2)]);
    assert_eq!(
        shell.answer("get artists 1"),
        vec![Reply::Artist(Artists { id: Int::new(1), name: Str::new("Slayer".into()) })]
    );
    assert_eq!(
        shell.answer("insert artists 1 Muse"),
        vec![Reply::Failed("id already exists".to_string())]
    );
    assert_eq!(
        shell.answer("get artists 3"),
        vec![Reply::Failed("record with a given id doesn't exist".to_string())]
    );
    // a sign is no word character: the argument is the digits alone
    assert_eq!(shell.answer("insert artists -7 Muse"), vec![Reply::CreatedArtist(7)]);
}

#[test]
fn get_checks_its_arguments() {
    let mut shell = shell();
    assert_eq!(shell.answer("get"), vec![Reply::GetUsage]);
    assert_eq!(shell.answer("get artists"), vec![Reply::GetUsage]);
    assert_eq!(shell.answer("get artists 1 2"), vec![Reply::GetUsage]);
    assert_eq!(shell.answer("get artists one"), vec![Reply::InvalidId("one".to_string())]);
    assert_eq!(
        shell.answer("get artists 99999999999"),
        vec![Reply::InvalidId("99999999999".to_string())]
    );
    assert_eq!(shell.answer("get users 1"), vec![Reply::Unsupported("users".to_string())]);
}

#[test]
fn songs_need_an_artist_that_is_stored() {
    let mut shell = shell();
    assert_eq!(
        shell.answer("insert songs 1 Underdog 2"),
        vec![Reply::Failed("record with a given id doesn't exist".to_string())]
    );
    assert_eq!(shell.answer("insert artists 2 Kasabian"), vec![Reply::CreatedArtist(2)]);
    assert_eq!(shell.answer("insert songs 1 Underdog 2"), vec![Reply::CreatedSong(1)]);
    assert_eq!(
        shell.answer("get songs 1"),
        vec![Reply::Song(Songs {
            id: Int::new(1),
            name: Str::new("Underdog".into()),
            artist_id: Int::new(2)
        })]
    );
    assert_eq!(shell.answer("insert songs 1 Underdog"), vec![Reply::SongsArity]);
    assert_eq!(shell.answer("insert songs x Underdog 2"), vec![Reply::InvalidId("x".to_string())]);
    assert_eq!(
        shell.answer("insert songs 3 Underdog y"),
        vec![Reply::InvalidForeignKey("3".to_string())]
    );
    assert_eq!(
        shell.answer("update songs 3 Underdog y"),
        vec![Reply::InvalidArtistKey("3".to_string())]
    );
    assert_eq!(shell.answer("insert artists 1 Slayer extra"), vec![Reply::ArtistsArity]);
    assert_eq!(shell.answer("insert artists 1"), vec![Reply::InsertUsage]);
    assert_eq!(shell.answer("update artists 1"), vec![Reply::InsertUsage]);
    assert_eq!(
        shell.answer("insert lyrics 1 la en"),
        vec![Reply::Unsupported("lyrics".to_string())]
    );
}

#[test]
fn update_replaces_and_delete_removes() {
    let mut shell = shell();
    shell.answer("insert artists 1 Slayer");
    assert_eq!(shell.answer("update artists 1 Muse"), vec![Reply::UpdatedArtist(1)]);
    assert_eq!(
        shell.answer("get artists 1"),
        vec![Reply::Artist(Artists { id: Int::new(1), name: Str::new("Muse".into()) })]
    );
    assert_eq!(
        shell.answer("update artists 2 Muse"),
        vec![Reply::Failed("record not found".to_string())]
    );
    shell.answer("insert songs 5 Uprising 1");
    assert_eq!(shell.answer("update songs 5 Starlight 1"), vec![Reply::UpdatedSong(5)]);
    assert_eq!(
        shell.answer("update songs 5 Starlight 9"),
        vec![Reply::Failed("record with a given id doesn't exist".to_string())]
    );

    let stated = command("delete", &["artists", "1"]);
    assert_eq!(shell.answer("delete artists 1"), vec![Reply::Echo(stated.clone()), Reply::Deleted]);
    assert_eq!(
        shell.answer("delete artists 1"),
        vec![Reply::Echo(stated), Reply::Failed("record not found".to_string())]
    );
    assert_eq!(
        shell.answer("delete songs 5"),
        vec![Reply::Echo(command("delete", &["songs", "5"])), Reply::Deleted]
    );
    assert_eq!(shell.answer("delete songs"), vec![Reply::DeleteUsage]);
    assert_eq!(
        shell.answer("delete songs x"),
        vec![Reply::Echo(command("delete", &["songs", "x"])), Reply::InvalidId("x".to_string())]
    );
    assert_eq!(
        shell.answer("delete users 1"),
        vec![Reply::Echo(command("delete", &["users", "1"])), Reply::Unsupported("users".to_string())]
    );
    assert_eq!(shell.database().artists.image(), &Vec::<u8>::new());
}

#[test]
fn commands_can_be_carried_out_without_a_line() {
    let mut shell = shell();
    assert_eq!(shell.execute(command("insert", &["artists", "1", "Slayer"])), vec![Reply::CreatedArtist(1)]);
    assert_eq!(
        shell.get(command("get", &["artists", "1"])),
        vec![Reply::Artist(Artists { id: Int::new(1), name: Str::new("Slayer".into()) })]
    );
    assert_eq!(shell.insert(command("insert", &["artists", "2", "Muse"])), vec![Reply::CreatedArtist(2)]);
    assert_eq!(shell.update(command("update", &["artists", "2", "Kasabian"])), vec![Reply::UpdatedArtist(2)]);
    assert_eq!(
        shell.delete(command("delete", &["artists", "2"])),
        vec![Reply::Echo(command("delete", &["artists", "2"])), Reply::Deleted]
    );
    assert_eq!(shell.execute(command("frobnicate", &[])), vec![Reply::Help]);
}
