use bearnote::listing::{full_lines, join_tags, list_short_lines};
use bearnote::notes::{Note, NoteFile};

fn note(id: &str, tag: Option<Vec<String>>) -> Note {
    Note {
        id: id.to_string(),
        password: format!("pw-{}", id),
        tag,
        time: "2021-05-01T12:00:00".to_string(),
        extension: "md".to_string(),
    }
}

#[test]
fn empty_collection_lists_only_the_header() {
    let file = NoteFile { notes: vec![] };
    let lines = list_short_lines(&file);
    assert_eq!(lines, vec!["ID                                      TAGS".to_string()]);
}

#[test]
fn short_listing_has_one_row_per_note() {
    let file = NoteFile {
        notes: vec![
            note("abc123", Some(vec!["work".to_string(), "draft".to_string()])),
            note("xyz999", None),
        ],
    };
    let lines = list_short_lines(&file);
    assert_eq!(lines.len(), 3);
    assert_eq!(lines[0], "ID                                      TAGS");
    assert_eq!(lines[1], "abc123    work, draft");
    assert_eq!(lines[2], "xyz999    ");
}

#[test]
fn tags_join_with_comma_and_space() {
    assert_eq!(join_tags(&None), "");
    assert_eq!(join_tags(&Some(vec![])), "");
    assert_eq!(join_tags(&Some(vec!["a".to_string()])), "a");
    assert_eq!(
        join_tags(&Some(vec!["a".to_string(), "b".to_string(), "c".to_string()])),
        "a, b, c",
    );
}

#[test]
fn full_listing_block_with_tags() {
    let lines = full_lines(&note("abc123", Some(vec!["work".to_string()])));
    assert_eq!(
        lines,
        vec![
            "ID:        abc123".to_string(),
            "Tags:      work".to_string(),
            "Password:  pw-abc123".to_string(),
            "Create At: 2021-05-01T12:00:00".to_string(),
            "Link:      https://www.bearnote.com/n/abc123".to_string(),
            "".to_string(),
        ],
    );
}

#[test]
fn full_listing_block_skips_empty_tags_line() {
    let lines = full_lines(&note("xyz999", None));
    assert_eq!(lines.len(), 5);
    assert_eq!(lines[0], "ID:        xyz999");
    assert_eq!(lines[1], "Password:  pw-xyz999");
    let empty_tagged = full_lines(&note("xyz999", Some(vec![])));
    assert_eq!(empty_tagged.len(), 5);
}
