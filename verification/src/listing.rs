//! Plain-text listing of the cached notes: the two-column short form and
//! the block-per-note full form. Colorizing is left to the shell around
//! the library; these functions fix the text itself.

use vstd::prelude::*;
use vstd::string::*;
use crate::notes::{strings_view, tags_view, Note, NoteFile, NoteModel};

verus! {

/// The tag list joined with a comma and a space; absent tags join to
/// nothing.
pub open spec fn spec_join_tags(ts: Seq<Seq<char>>) -> Seq<char>
    decreases ts.len(),
{
    if ts.len() == 0 {
        Seq::empty()
    } else if ts.len() == 1 {
        ts[0]
    } else {
        spec_join_tags(ts.drop_last()) + ", "@ + ts.last()
    }
}

/// The text shown in a tags column or tags line.
pub open spec fn spec_tags_text(t: Option<Seq<Seq<char>>>) -> Seq<char> {
    match t {
        None => Seq::empty(),
        Some(ts) => spec_join_tags(ts),
    }
}

/// The header line of the short listing.
pub open spec fn spec_short_header() -> Seq<char> {
    "ID                                      TAGS"@
}

/// One data row of the short listing.
pub open spec fn spec_short_line(n: NoteModel) -> Seq<char> {
    n.id + "    "@ + spec_tags_text(n.tag)
}

/// The link under which a note's content can be viewed.
pub open spec fn spec_link(id: Seq<char>) -> Seq<char> {
    "https://www.bearnote.com/n/"@ + id
}

/// The block of lines the full listing prints for one note: id, the tags
/// line only when there is tag text, password, creation time, view link,
/// and a separating blank line.
pub open spec fn spec_full_lines(n: NoteModel) -> Seq<Seq<char>> {
    let tags = spec_tags_text(n.tag);
    (if tags.len() == 0 {
        seq!["ID:        "@ + n.id]
    } else {
        seq!["ID:        "@ + n.id, "Tags:      "@ + tags]
    }) + seq![
        "Password:  "@ + n.password,
        "Create At: "@ + n.time,
        "Link:      "@ + spec_link(n.id),
        Seq::<char>::empty(),
    ]
}

/// Join a note's tags with a comma and a space.
pub fn join_tags(t: &Option<Vec<String>>) -> (r: String)
    ensures
        r@ == spec_tags_text(tags_view(*t)),
{
    match t {
        None => String::new(),
        Some(ts) => {
            let mut out = String::new();
            let n = ts.len();
            let mut i: usize = 0;
            while i < n
                invariant
                    i <= n,
                    n == ts@.len(),
                    out@ == spec_join_tags(strings_view(ts@).take(i as int)),
                decreases n - i,
            {
                if i > 0 {
                    out.append(", ");
                }
                out.append(ts[i].as_str());
                proof {
                    let v = strings_view(ts@);
                    assert(v.take(i as int + 1).drop_last() =~= v.take(i as int));
                    assert(v.take(i as int + 1).last() == v[i as int]);
                }
                i = i + 1;
            }
            proof {
                assert(strings_view(ts@).take(n as int) =~= strings_view(ts@));
            }
            out
        },
    }
}

/// The short listing: one header line, then one row per note, in order.
/// An empty collection lists as the header alone.
pub fn list_short_lines(file: &NoteFile) -> (r: Vec<String>)
    ensures
        r@.len() == file@.len() + 1,
        r@[0]@ == spec_short_header(),
        forall|i: int| 0 <= i < file@.len() ==> r@[i + 1]@ == spec_short_line(file@[i]),
{
    let mut r: Vec<String> = Vec::new();
    r.push("ID                                      TAGS".to_owned());
    let n = file.notes.len();
    let mut i: usize = 0;
    while i < n
        invariant
            i <= n,
            n == file.notes@.len(),
            r@.len() == i + 1,
            r@[0]@ == spec_short_header(),
            forall|k: int| 0 <= k < i ==> r@[k + 1]@ == spec_short_line(file@[k]),
        decreases n - i,
    {
        let mut line = file.notes[i].id.clone();
        line.append("    ");
        let tags = join_tags(&file.notes[i].tag);
        line.append(tags.as_str());
        r.push(line);
        i = i + 1;
    }
    r
}

/// The block of lines the full listing prints for one note.
pub fn full_lines(note: &Note) -> (r: Vec<String>)
    ensures
        strings_view(r@) == spec_full_lines(note@),
{
    let mut r: Vec<String> = Vec::new();
    let mut id_line = "ID:        ".to_owned();
    id_line.append(note.id.as_str());
    r.push(id_line);
    let tags = join_tags(&note.tag);
    if tags.unicode_len() > 0 {
        let mut tags_line = "Tags:      ".to_owned();
        tags_line.append(tags.as_str());
        r.push(tags_line);
    }
    let mut pw_line = "Password:  ".to_owned();
    pw_line.append(note.password.as_str());
    r.push(pw_line);
    let mut time_line = "Create At: ".to_owned();
    time_line.append(note.time.as_str());
    r.push(time_line);
    let mut link_line = "Link:      ".to_owned();
    link_line.append("https://www.bearnote.com/n/");
    link_line.append(note.id.as_str());
    r.push(link_line);
    r.push(String::new());
    proof {
        assert(strings_view(r@) =~~= spec_full_lines(note@));
    }
    r
}

} // verus!
