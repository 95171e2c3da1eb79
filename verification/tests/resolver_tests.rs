use bearnote::notes::{Note, NoteFile};
use bearnote::resolver::{resolve, ResolverOutcome};

fn note(id: &str) -> Note {
    Note {
        id: id.to_string(),
        password: format!("pw-{}", id),
        tag: None,
        time: "2021-05-01T12:00:00".to_string(),
        extension: "md".to_string(),
    }
}

fn sample() -> NoteFile {
    NoteFile { notes: vec![note("abc123"), note("abc456"), note("xyz999")] }
}

#[test]
fn ambiguous_prefix_counts_matches() {
    let file = sample();
    match resolve(&file, "abc") {
        ResolverOutcome::Ambiguous(c) => assert_eq!(c, 2),
        _ => panic!("expected an ambiguous outcome"),
    }
}

#[test]
fn unique_prefix_yields_the_note() {
    let file = sample();
    match resolve(&file, "xyz") {
        ResolverOutcome::Unique(n) => {
            assert_eq!(n.id, "xyz999");
            assert_eq!(n.password, "pw-xyz999");
        },
        _ => panic!("expected a unique outcome"),
    }
}

#[test]
fn unmatched_prefix_is_no_match() {
    let file = sample();
    assert!(matches!(resolve(&file, "q"), ResolverOutcome::NoMatch));
}

#[test]
fn empty_prefix_matches_every_note() {
    let file = sample();
    match resolve(&file, "") {
        ResolverOutcome::Ambiguous(c) => assert_eq!(c, 3),
        _ => panic!("expected an ambiguous outcome"),
    }
}

#[test]
fn full_id_is_a_unique_prefix() {
    let file = sample();
    match resolve(&file, "abc456") {
        ResolverOutcome::Unique(n) => assert_eq!(n.id, "abc456"),
        _ => panic!("expected a unique outcome"),
    }
}

#[test]
fn empty_collection_never_matches() {
    let file = NoteFile { notes: vec![] };
    assert!(matches!(resolve(&file, "a"), ResolverOutcome::NoMatch));
    assert!(matches!(resolve(&file, ""), ResolverOutcome::NoMatch));
}

#[test]
fn matching_is_case_sensitive() {
    let file = sample();
    assert!(matches!(resolve(&file, "ABC"), ResolverOutcome::NoMatch));
}
