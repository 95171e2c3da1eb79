//! The collection edits behind `add` and `delete`: appending a freshly
//! created note and removing a resolved one, each preserving the unique-id
//! invariant.

use vstd::prelude::*;
use crate::errors::Error;
use crate::notes::{unique_ids, note_of_response, Note, NoteFile, NoteModel, NoteResponse};
use crate::text::str_eq;

verus! {

/// Some note of `ns` has exactly this id.
pub open spec fn spec_contains_id(ns: Seq<NoteModel>, id: Seq<char>) -> bool {
    exists|i: int| 0 <= i < ns.len() && ns[i].id == id
}

/// Is some cached note's id exactly `id`?
pub fn contains_id(file: &NoteFile, id: &str) -> (r: bool)
    ensures
        r == spec_contains_id(file@, id@),
{
    let n = file.notes.len();
    let mut i: usize = 0;
    while i < n
        invariant
            i <= n,
            n == file.notes@.len(),
            forall|k: int| 0 <= k < i ==> file@[k].id != id@,
        decreases n - i,
    {
        if str_eq(file.notes[i].id.as_str(), id) {
            proof {
                assert(file@[i as int].id == id@);
            }
            return true;
        }
        i = i + 1;
    }
    false
}

/// Do all cached notes carry pairwise distinct ids?
pub fn has_unique_ids(file: &NoteFile) -> (r: bool)
    ensures
        r == unique_ids(file@),
{
    let n = file.notes.len();
    let mut i: usize = 0;
    while i < n
        invariant
            i <= n,
            n == file.notes@.len(),
            forall|a: int, b: int|
                0 <= a < b < file@.len() && a < i ==> file@[a].id != file@[b].id,
        decreases n - i,
    {
        let mut j: usize = i + 1;
        while j < n
            invariant
                i < n,
                n == file.notes@.len(),
                i + 1 <= j <= n,
                forall|b: int| i < b < j ==> file@[i as int].id != file@[b].id,
                forall|a: int, b: int|
                    0 <= a < b < file@.len() && a < i ==> file@[a].id != file@[b].id,
            decreases n - j,
        {
            if str_eq(file.notes[i].id.as_str(), file.notes[j].id.as_str()) {
                proof {
                    assert(file@[i as int].id == file@[j as int].id);
                }
                return false;
            }
            j = j + 1;
        }
        i = i + 1;
    }
    true
}

/// Law: removing one note keeps the remaining ids unique.
pub proof fn lemma_unique_ids_remove(ns: Seq<NoteModel>, i: int)
    requires
        unique_ids(ns),
        0 <= i < ns.len(),
    ensures
        unique_ids(ns.remove(i)),
{
    assert forall|a: int, b: int| 0 <= a < b < ns.remove(i).len() implies ns.remove(i)[a].id != ns.remove(
        i,
    )[b].id by {
        let a0 = if a < i {
            a
        } else {
            a + 1
        };
        let b0 = if b < i {
            b
        } else {
            b + 1
        };
        assert(ns.remove(i)[a] == ns[a0]);
        assert(ns.remove(i)[b] == ns[b0]);
    }
}

/// Append a freshly created note at the end of the collection.
///
/// Every note already cached stays, in order; the new note becomes the
/// last one, and ids stay unique.
pub fn append_note(file: &mut NoteFile, note: Note)
    requires
        unique_ids(old(file)@),
        !spec_contains_id(old(file)@, note@.id),
    ensures
        final(file)@ == old(file)@ + seq![note@],
        unique_ids(final(file)@),
{
    let ghost pre = file@;
    let ghost m = note@;
    file.notes.push(note);
    proof {
        assert(file@ =~= pre + seq![m]);
        assert forall|i: int, j: int| 0 <= i < j < file@.len() implies file@[i].id
            != file@[j].id by {
            if j == file@.len() - 1 {
                assert(pre[i] == file@[i]);
            }
        }
    }
}

/// Remove the note whose id is exactly `id`, if one is cached.
///
/// On a hit, exactly that note leaves the collection and every other note
/// stays, in order; on a miss nothing changes. Ids stay unique.
pub fn remove_by_id(file: &mut NoteFile, id: &str) -> (removed: bool)
    requires
        unique_ids(old(file)@),
    ensures
        removed == spec_contains_id(old(file)@, id@),
        removed ==> exists|i: int|
            0 <= i < old(file)@.len() && old(file)@[i].id == id@ && final(file)@ == old(
                file,
            )@.remove(i),
        !removed ==> final(file)@ == old(file)@,
        unique_ids(final(file)@),
{
    let ghost pre = file@;
    let n = file.notes.len();
    let mut i: usize = 0;
    while i < n
        invariant
            i <= n,
            n == file.notes@.len(),
            file@ == pre,
            pre == old(file)@,
            unique_ids(pre),
            forall|k: int| 0 <= k < i ==> file@[k].id != id@,
        decreases n - i,
    {
        if str_eq(file.notes[i].id.as_str(), id) {
            proof {
                assert(file@[i as int].id == id@);
            }
            let ghost notes_pre = file.notes@;
            file.notes.remove(i);
            proof {
                assert forall|k: int| 0 <= k < file@.len() implies file@[k] == pre.remove(
                    i as int,
                )[k] by {
                    if k < i as int {
                        assert(notes_pre.remove(i as int)[k] == notes_pre[k]);
                        assert(pre.remove(i as int)[k] == pre[k]);
                    } else {
                        assert(notes_pre.remove(i as int)[k] == notes_pre[k + 1]);
                        assert(pre.remove(i as int)[k] == pre[k + 1]);
                    }
                }
                assert(file@ =~= pre.remove(i as int));
                lemma_unique_ids_remove(pre, i as int);
            }
            return true;
        }
        i = i + 1;
    }
    false
}

/// Apply a successful remote create to the collection: convert the
/// response to a cached record by the one-way mapping, append it at the
/// end, and hand back the new id.
///
/// The remote service assigns fresh ids, so a response whose id is
/// already cached is treated as an invalid remote answer: the collection
/// is left untouched and a remote error is returned.
pub fn apply_create(file: &mut NoteFile, response: NoteResponse) -> (r: Result<String, Error>)
    requires
        unique_ids(old(file)@),
    ensures
        (r is Ok <==> !spec_contains_id(old(file)@, note_of_response(response).id)),
        (r matches Ok(id) ==> final(file)@ == old(file)@ + seq![note_of_response(response)]
            && id@ == note_of_response(response).id),
        unique_ids(final(file)@),
        (r matches Err(e) ==> final(file)@ == old(file)@ && (e matches Error::RemoteError(d)
            && d@ == "remote service returned an id that is already cached"@)),
{
    if contains_id(file, response.id.as_str()) {
        return Err(
            Error::RemoteError("remote service returned an id that is already cached".to_owned()),
        );
    }
    let note = Note::from(response);
    let id = note.id.clone();
    append_note(file, note);
    Ok(id)
}

} // verus!
