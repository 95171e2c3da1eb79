use bearnote::codec::{load_collection, save_collection};
use bearnote::errors::Error;
use bearnote::notes::{Note, NoteFile};

fn note(id: &str, tag: Option<Vec<String>>) -> Note {
    Note {
        id: id.to_string(),
        password: format!("pw-{}", id),
        tag,
        time: "2021-05-01T12:00:00".to_string(),
        extension: "md".to_string(),
    }
}

#[test]
fn empty_collection_saves_as_bare_document() {
    let file = NoteFile { notes: vec![] };
    assert_eq!(save_collection(&file), "notes = [\n]\n");
}

#[test]
fn one_note_saves_exactly() {
    let file = NoteFile { notes: vec![note("a1", Some(vec!["x".to_string(), "y".to_string()]))] };
    assert_eq!(
        save_collection(&file),
        "notes = [\n{ id = \"a1\", password = \"pw-a1\", tag = [\"x\", \"y\"], time = \"2021-05-01T12:00:00\", extension = \"md\" },\n]\n",
    );
}

#[test]
fn note_without_tags_omits_the_tag_key() {
    let file = NoteFile { notes: vec![note("a1", None)] };
    let text = save_collection(&file);
    assert_eq!(
        text,
        "notes = [\n{ id = \"a1\", password = \"pw-a1\", time = \"2021-05-01T12:00:00\", extension = \"md\" },\n]\n",
    );
}

#[test]
fn quotes_and_backslashes_are_escaped() {
    let file = NoteFile { notes: vec![note("a\"b\\c", None)] };
    let text = save_collection(&file);
    assert!(text.contains("id = \"a\\\"b\\\\c\""));
}

#[test]
fn round_trip_plain_collection() {
    let file = NoteFile {
        notes: vec![
            note("abc123", Some(vec!["work".to_string()])),
            note("abc456", None),
            note("xyz999", Some(vec![])),
        ],
    };
    let text = save_collection(&file);
    let back = load_collection(&text).expect("saved text must load");
    assert_eq!(back.notes.len(), 3);
    for (a, b) in file.notes.iter().zip(back.notes.iter()) {
        assert_eq!(a.id, b.id);
        assert_eq!(a.password, b.password);
        assert_eq!(a.tag, b.tag);
        assert_eq!(a.time, b.time);
        assert_eq!(a.extension, b.extension);
    }
}

#[test]
fn round_trip_keeps_awkward_characters() {
    let file = NoteFile {
        notes: vec![note(
            "we\"ird\\id",
            Some(vec!["a, b".to_string(), "\\\"".to_string(), "".to_string()]),
        )],
    };
    let text = save_collection(&file);
    let back = load_collection(&text).expect("saved text must load");
    assert_eq!(back.notes[0].id, "we\"ird\\id");
    assert_eq!(
        back.notes[0].tag,
        Some(vec!["a, b".to_string(), "\\\"".to_string(), "".to_string()])
    );
}

#[test]
fn empty_document_loads_as_empty_collection() {
    let back = load_collection("notes = [\n]\n").expect("empty document must load");
    assert!(back.notes.is_empty());
}

#[test]
fn garbage_is_store_corrupt() {
    assert_eq!(load_collection("this is not a store").unwrap_err(), Error::StoreCorrupt);
    assert_eq!(load_collection("").unwrap_err(), Error::StoreCorrupt);
    assert_eq!(load_collection("notes = [\n").unwrap_err(), Error::StoreCorrupt);
}

#[test]
fn trailing_text_is_store_corrupt() {
    assert_eq!(load_collection("notes = [\n]\nextra").unwrap_err(), Error::StoreCorrupt);
}

#[test]
fn duplicate_ids_are_store_corrupt() {
    let file = NoteFile { notes: vec![note("dup", None), note("dup", None)] };
    let text = save_collection(&file);
    assert_eq!(load_collection(&text).unwrap_err(), Error::StoreCorrupt);
}

#[test]
fn unterminated_quote_is_store_corrupt() {
    let text = "notes = [\n{ id = \"a1";
    assert_eq!(load_collection(text).unwrap_err(), Error::StoreCorrupt);
}
