use versebase::error::{Error, ErrorKind};

#[test]
fn kinds_have_fixed_descriptions() {
    assert_eq!(ErrorKind::Io.as_str(), "io error");
    assert_eq!(ErrorKind::Parse.as_str(), "parsing error");
    assert_eq!(ErrorKind::FilePointerCorrupt.as_str(), "file pointer is corrupt");
    assert_eq!(ErrorKind::AlreadyExists.as_str(), "already exists");
    assert_eq!(ErrorKind::NotFound.as_str(), "record not found");
    assert_eq!(ErrorKind::NotFound.to_string(), "record not found".to_string());
}

#[test]
fn errors_carry_kind_and_message() {
    let e = Error::duplicate();
    assert_eq!(e.kind, ErrorKind::AlreadyExists);
    assert_eq!(e.message, "id already exists");
    let e = Error::missing();
    assert_eq!(e.kind, ErrorKind::NotFound);
    assert_eq!(e.message, "record with a given id doesn't exist");
    let e = Error::absent();
    assert_eq!(e.kind, ErrorKind::NotFound);
    assert_eq!(e.message, "record not found");
    let e = Error::corrupt();
    assert_eq!(e.kind, ErrorKind::FilePointerCorrupt);
    assert_eq!(e.message, "file pointer is corrupt");
    let e = Error::bad_seek();
    assert_eq!(e.kind, ErrorKind::Io);
    let e = Error::with_message(ErrorKind::NotFound, "record with a given id doesn't exist");
    assert_eq!(e.kind, ErrorKind::NotFound);
    assert_eq!(e.message, "record with a given id doesn't exist");
}
