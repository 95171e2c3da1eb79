//! The note data model: cached records for notes whose content lives on
//! the remote service, and the collection invariant (ids are unique).

use vstd::prelude::*;

verus! {

/// A locally cached record for one remotely stored note.
///
/// `id` is the opaque token the remote service assigned at creation;
/// `password` is the capability token required to delete the note
/// remotely; `time` holds the creation timestamp exactly as the
/// transport layer rendered it, and the library treats it as an opaque
/// token.
#[derive(Debug)]
pub struct Note {
    pub id: String,
    pub password: String,
    pub tag: Option<Vec<String>>,
    pub time: String,
    pub extension: String,
}

/// The mathematical model of a `Note`: every field as plain character data.
pub struct NoteModel {
    pub id: Seq<char>,
    pub password: Seq<char>,
    pub tag: Option<Seq<Seq<char>>>,
    pub time: Seq<char>,
    pub extension: Seq<char>,
}

/// The view of a sequence of strings: each element as its character sequence.
pub open spec fn strings_view(v: Seq<String>) -> Seq<Seq<char>> {
    Seq::new(v.len(), |i: int| v[i]@)
}

/// The view of an optional tag list.
pub open spec fn tags_view(t: Option<Vec<String>>) -> Option<Seq<Seq<char>>> {
    match t {
        Some(v) => Some(strings_view(v@)),
        None => None,
    }
}

impl View for Note {
    type V = NoteModel;

    open spec fn view(&self) -> NoteModel {
        NoteModel {
            id: self.id@,
            password: self.password@,
            tag: tags_view(self.tag),
            time: self.time@,
            extension: self.extension@,
        }
    }
}

/// The ordered collection of cached notes; insertion order is display order.
#[derive(Debug)]
pub struct NoteFile {
    pub notes: Vec<Note>,
}

/// The view of a sequence of notes: each element as its model.
pub open spec fn notes_view(v: Seq<Note>) -> Seq<NoteModel> {
    Seq::new(v.len(), |i: int| v[i]@)
}

impl View for NoteFile {
    type V = Seq<NoteModel>;

    open spec fn view(&self) -> Seq<NoteModel> {
        notes_view(self.notes@)
    }
}

/// The collection invariant: no two notes share an id.
pub open spec fn unique_ids(ns: Seq<NoteModel>) -> bool {
    forall|i: int, j: int| 0 <= i < j < ns.len() ==> ns[i].id != ns[j].id
}

/// The body sent to the remote create endpoint.
#[derive(Debug)]
pub struct PostNote {
    pub content: String,
    pub extension: Option<String>,
}

/// The full metadata the remote create endpoint returns.
#[derive(Debug)]
pub struct NoteResponse {
    pub id: String,
    pub content: String,
    pub password: String,
    pub tag: Option<Vec<String>>,
    pub create_at: String,
    pub view: i64,
    pub extension: String,
    pub is_delete: bool,
}

/// The model of the one-way mapping from a remote response to the local
/// record that is cached for it.
pub open spec fn note_of_response(r: NoteResponse) -> NoteModel {
    NoteModel {
        id: r.id@,
        password: r.password@,
        tag: tags_view(r.tag),
        time: r.create_at@,
        extension: r.extension@,
    }
}

impl vstd::std_specs::convert::FromSpecImpl<NoteResponse> for Note {
    open spec fn obeys_from_spec() -> bool {
        true
    }

    open spec fn from_spec(r: NoteResponse) -> Note {
        Note {
            id: r.id,
            password: r.password,
            tag: r.tag,
            time: r.create_at,
            extension: r.extension,
        }
    }
}

impl From<NoteResponse> for Note {
    /// The one-way conversion from remote metadata to a cached record:
    /// the remote `create_at` becomes the record's `time`, the content
    /// and remote-only counters are dropped.
    fn from(response: NoteResponse) -> Self {
        Note {
            id: response.id,
            password: response.password,
            tag: response.tag,
            time: response.create_at,
            extension: response.extension,
        }
    }
}

/// Copy a vector of strings; the copy has the same view.
pub fn clone_strings(v: &Vec<String>) -> (r: Vec<String>)
    ensures
        strings_view(r@) == strings_view(v@),
{
    let mut out: Vec<String> = Vec::new();
    let mut i: usize = 0;
    while i < v.len()
        invariant
            i <= v.len(),
            out@.len() == i,
            forall|k: int| 0 <= k < i ==> out@[k]@ == v@[k]@,
        decreases v.len() - i,
    {
        out.push(v[i].clone());
        i = i + 1;
    }
    proof {
        assert(strings_view(out@) =~= strings_view(v@));
    }
    out
}

impl Note {
    /// Copy a note; the copy has the same model.
    pub fn duplicate(&self) -> (r: Note)
        ensures
            r@ == self@,
    {
        let tag: Option<Vec<String>> = match &self.tag {
            Some(v) => Some(clone_strings(v)),
            None => None,
        };
        let r = Note {
            id: self.id.clone(),
            password: self.password.clone(),
            tag,
            time: self.time.clone(),
            extension: self.extension.clone(),
        };
        proof {
            assert(tags_view(r.tag) == tags_view(self.tag));
        }
        r
    }
}

} // verus!
