use bearnote::codec::{load_collection, save_collection};
use bearnote::errors::Error;
use bearnote::notes::{Note, NoteFile, NoteResponse};
use bearnote::ops::{append_note, apply_create, contains_id, has_unique_ids, remove_by_id};
use bearnote::resolver::{resolve, ResolverOutcome};

fn note(id: &str) -> Note {
    Note {
        id: id.to_string(),
        password: format!("pw-{}", id),
        tag: Some(vec!["work".to_string()]),
        time: "2021-05-01T12:00:00".to_string(),
        extension: "md".to_string(),
    }
}

fn sample() -> NoteFile {
    NoteFile { notes: vec![note("abc123"), note("abc456"), note("xyz999")] }
}

#[test]
fn delete_unique_match_removes_exactly_that_note() {
    let mut file = sample();
    let resolved = match resolve(&file, "xyz") {
        ResolverOutcome::Unique(n) => n,
        _ => panic!("expected a unique outcome"),
    };
    assert!(remove_by_id(&mut file, &resolved.id));
    let ids: Vec<&str> = file.notes.iter().map(|n| n.id.as_str()).collect();
    assert_eq!(ids, vec!["abc123", "abc456"]);
    // The persisted document no longer mentions the removed note and
    // still loads to the remaining two, untouched.
    let text = save_collection(&file);
    assert!(!text.contains("xyz999"));
    let back = load_collection(&text).expect("saved text must load");
    assert_eq!(back.notes.len(), 2);
    assert_eq!(back.notes[0].id, "abc123");
    assert_eq!(back.notes[0].password, "pw-abc123");
    assert_eq!(back.notes[1].id, "abc456");
}

#[test]
fn remove_unknown_id_changes_nothing() {
    let mut file = sample();
    let before = save_collection(&file);
    assert!(!remove_by_id(&mut file, "zzz"));
    assert_eq!(save_collection(&file), before);
}

#[test]
fn append_keeps_order_and_uniqueness() {
    let mut file = sample();
    assert!(!contains_id(&file, "n42"));
    append_note(&mut file, note("n42"));
    assert_eq!(file.notes.len(), 4);
    assert_eq!(file.notes[3].id, "n42");
    assert!(has_unique_ids(&file));
    assert!(contains_id(&file, "n42"));
}

fn response(id: &str) -> NoteResponse {
    NoteResponse {
        id: id.to_string(),
        content: "hello world".to_string(),
        password: "secret-token".to_string(),
        tag: None,
        create_at: "2021-06-02T08:30:00".to_string(),
        view: 0,
        extension: "md".to_string(),
        is_delete: false,
    }
}

#[test]
fn successful_create_appends_and_persists_the_new_note() {
    let mut file = sample();
    let id = apply_create(&mut file, response("n42")).expect("fresh id must be accepted");
    assert_eq!(id, "n42");
    let last = file.notes.last().expect("the collection cannot be empty here");
    assert_eq!(last.id, "n42");
    assert_eq!(last.password, "secret-token");
    assert_eq!(last.time, "2021-06-02T08:30:00");
    let text = save_collection(&file);
    let back = load_collection(&text).expect("saved text must load");
    assert_eq!(back.notes.last().unwrap().id, "n42");
    assert_eq!(back.notes.len(), 4);
}

#[test]
fn duplicate_remote_id_is_rejected_and_store_unchanged() {
    let mut file = sample();
    let before = save_collection(&file);
    let err = apply_create(&mut file, response("abc123")).unwrap_err();
    assert!(matches!(err, Error::RemoteError(_)));
    assert_eq!(save_collection(&file), before);
}

#[test]
fn converted_response_maps_fields_one_way() {
    let n = Note::from(response("n7"));
    assert_eq!(n.id, "n7");
    assert_eq!(n.password, "secret-token");
    assert_eq!(n.time, "2021-06-02T08:30:00");
    assert_eq!(n.extension, "md");
    assert_eq!(n.tag, None);
}

#[test]
fn missing_content_file_error_leaves_store_unchanged() {
    // The shell maps a nonexistent `add` path to `FileNotFound` before
    // any collection edit; the store text is untouched by the failure.
    let file = sample();
    let before = save_collection(&file);
    let err = Error::FileNotFound;
    assert_eq!(err, Error::FileNotFound);
    assert_ne!(err.exit_code(), 0);
    assert_eq!(err.message(), "the given file does not exist");
    assert_eq!(save_collection(&file), before);
}

#[test]
fn every_error_gets_its_own_exit_code_and_message() {
    let errors = vec![
        Error::StoreCorrupt,
        Error::FileNotFound,
        Error::NotAFile,
        Error::TransportError("connection refused".to_string()),
        Error::RemoteError("status 500".to_string()),
    ];
    let mut codes: Vec<i32> = errors.iter().map(|e| e.exit_code()).collect();
    for c in codes.iter() {
        assert_ne!(*c, 0);
    }
    codes.sort();
    codes.dedup();
    assert_eq!(codes.len(), 5);
    assert_eq!(
        Error::TransportError("connection refused".to_string()).message(),
        "network failure: connection refused",
    );
    assert_eq!(
        Error::RemoteError("status 500".to_string()).message(),
        "remote service error: status 500",
    );
    assert_eq!(
        Error::StoreCorrupt.message(),
        "local note store exists but could not be parsed",
    );
    assert_eq!(Error::NotAFile.message(), "the given path is not a regular file");
}

#[test]
fn duplicate_detection_sees_repeated_ids() {
    let file = NoteFile { notes: vec![note("a"), note("b"), note("a")] };
    assert!(!has_unique_ids(&file));
}
