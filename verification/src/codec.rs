//! The store-file text format. A collection is kept on disk as one
//! document of the shape
//!
//! ```text
//! notes = [
//! { id = "..", password = "..", tag = ["..", ".."], time = "..", extension = ".." },
//! ]
//! ```
//!
//! with `\` and `"` backslash-escaped inside quoted values and the `tag`
//! key present only when the note carries a tag list. The writer and the
//! parser are both verified against one spec-level grammar, and loading a
//! saved collection provably gives the collection back.

use vstd::prelude::*;
use vstd::string::*;
use crate::errors::Error;
use crate::notes::{notes_view, strings_view, unique_ids, Note, NoteFile, NoteModel};
use crate::text::push_char;

verus! {

// ---------------------------------------------------------------------
// The literal pieces of the format.
// ---------------------------------------------------------------------
pub open spec fn lit_header() -> Seq<char> {
    "notes = [\n"@
}

pub open spec fn lit_close() -> Seq<char> {
    "]\n"@
}

pub open spec fn lit_note_head() -> Seq<char> {
    "{ id = \""@
}

pub open spec fn lit_pw() -> Seq<char> {
    ", password = \""@
}

pub open spec fn lit_tag() -> Seq<char> {
    ", tag = ["@
}

pub open spec fn lit_time() -> Seq<char> {
    ", time = \""@
}

pub open spec fn lit_ext() -> Seq<char> {
    ", extension = \""@
}

pub open spec fn lit_note_end() -> Seq<char> {
    " },\n"@
}

pub open spec fn lit_quote() -> Seq<char> {
    "\""@
}

pub open spec fn lit_sep() -> Seq<char> {
    ", "@
}

// ---------------------------------------------------------------------
// Encoding.
// ---------------------------------------------------------------------
/// How one character is written inside a quoted value.
pub open spec fn esc_char(c: char) -> Seq<char> {
    if c == '\\' || c == '"' {
        seq!['\\', c]
    } else {
        seq![c]
    }
}

/// How a whole value is written inside quotes.
pub open spec fn esc(s: Seq<char>) -> Seq<char>
    decreases s.len(),
{
    if s.len() == 0 {
        Seq::empty()
    } else {
        esc_char(s[0]) + esc(s.skip(1))
    }
}

/// The comma-separated quoted tag items (without the surrounding brackets).
pub open spec fn e_tags(ts: Seq<Seq<char>>) -> Seq<char>
    decreases ts.len(),
{
    if ts.len() == 0 {
        Seq::empty()
    } else if ts.len() == 1 {
        lit_quote() + esc(ts[0]) + lit_quote()
    } else {
        lit_quote() + esc(ts[0]) + lit_quote() + lit_sep() + e_tags(ts.skip(1))
    }
}

/// The optional `tag` key: absent notes write nothing.
pub open spec fn e_tagpart(tag: Option<Seq<Seq<char>>>) -> Seq<char> {
    match tag {
        None => Seq::empty(),
        Some(ts) => lit_tag() + e_tags(ts) + seq![']'],
    }
}

/// One note record, including its trailing comma and newline.
pub open spec fn e_note(n: NoteModel) -> Seq<char> {
    lit_note_head() + esc(n.id) + lit_quote() + lit_pw() + esc(n.password) + lit_quote()
        + e_tagpart(n.tag) + lit_time() + esc(n.time) + lit_quote() + lit_ext() + esc(n.extension)
        + lit_quote() + lit_note_end()
}

/// All records, in order.
pub open spec fn e_notes(ns: Seq<NoteModel>) -> Seq<char>
    decreases ns.len(),
{
    if ns.len() == 0 {
        Seq::empty()
    } else {
        e_note(ns[0]) + e_notes(ns.skip(1))
    }
}

/// The whole store document for a collection.
pub open spec fn spec_save(ns: Seq<NoteModel>) -> Seq<char> {
    lit_header() + e_notes(ns) + lit_close()
}

// ---------------------------------------------------------------------
// Parsing.
// ---------------------------------------------------------------------
/// Consume the exact literal `lit` at the front of `s`.
pub open spec fn expect(s: Seq<char>, lit: Seq<char>) -> Option<Seq<char>> {
    if lit.len() <= s.len() && s.subrange(0, lit.len() as int) == lit {
        Some(s.skip(lit.len() as int))
    } else {
        None
    }
}

/// Consume a quoted value up to and including its closing quote; `s`
/// starts right after the opening quote. Yields the unescaped value and
/// the remainder.
pub open spec fn p_quoted(s: Seq<char>) -> Option<(Seq<char>, Seq<char>)>
    decreases s.len(),
{
    if s.len() == 0 {
        None
    } else if s[0] == '"' {
        Some((Seq::empty(), s.skip(1)))
    } else if s[0] == '\\' {
        if s.len() >= 2 && (s[1] == '\\' || s[1] == '"') {
            match p_quoted(s.skip(2)) {
                Some((c, r)) => Some((seq![s[1]] + c, r)),
                None => None,
            }
        } else {
            None
        }
    } else {
        match p_quoted(s.skip(1)) {
            Some((c, r)) => Some((seq![s[0]] + c, r)),
            None => None,
        }
    }
}

/// A successful quoted value consumes at least its closing quote.
pub proof fn lemma_p_quoted_shrinks(s: Seq<char>)
    ensures
        p_quoted(s) matches Some(cr) ==> cr.1.len() < s.len(),
    decreases s.len(),
{
    if s.len() > 0 && s[0] != '"' {
        if s[0] == '\\' {
            if s.len() >= 2 && (s[1] == '\\' || s[1] == '"') {
                lemma_p_quoted_shrinks(s.skip(2));
            }
        } else {
            lemma_p_quoted_shrinks(s.skip(1));
        }
    }
}

/// Consume one or more quoted tag items and the closing bracket.
pub open spec fn p_tag_items(s: Seq<char>) -> Option<(Seq<Seq<char>>, Seq<char>)>
    decreases s.len(),
{
    if s.len() > 0 && s[0] == '"' {
        match p_quoted(s.skip(1)) {
            Some((t, r)) => {
                if r.len() > 0 && r[0] == ']' {
                    Some((seq![t], r.skip(1)))
                } else if r.len() >= 2 && r[0] == ',' && r[1] == ' ' {
                    proof {
                        lemma_p_quoted_shrinks(s.skip(1));
                    }
                    match p_tag_items(r.skip(2)) {
                        Some((ts, r2)) => Some((seq![t] + ts, r2)),
                        None => None,
                    }
                } else {
                    None
                }
            },
            None => None,
        }
    } else {
        None
    }
}

/// Consume a whole tag list body and the closing bracket; `s` starts
/// right after the opening bracket.
pub open spec fn p_tags(s: Seq<char>) -> Option<(Seq<Seq<char>>, Seq<char>)> {
    if s.len() > 0 && s[0] == ']' {
        Some((Seq::empty(), s.skip(1)))
    } else {
        p_tag_items(s)
    }
}

pub proof fn lemma_p_tag_items_shrinks(s: Seq<char>)
    ensures
        p_tag_items(s) matches Some(tr) ==> tr.1.len() < s.len(),
    decreases s.len(),
{
    if s.len() > 0 && s[0] == '"' {
        lemma_p_quoted_shrinks(s.skip(1));
        match p_quoted(s.skip(1)) {
            Some((t, r)) => {
                if r.len() >= 2 && !(r.len() > 0 && r[0] == ']') && r[0] == ',' && r[1] == ' ' {
                    lemma_p_tag_items_shrinks(r.skip(2));
                }
            },
            None => {},
        }
    }
}

pub proof fn lemma_p_tags_shrinks(s: Seq<char>)
    ensures
        p_tags(s) matches Some(tr) ==> tr.1.len() < s.len(),
{
    lemma_p_tag_items_shrinks(s);
}

/// Consume one note record; `s` starts at its opening brace.
pub open spec fn p_note(s: Seq<char>) -> Option<(NoteModel, Seq<char>)> {
    match expect(s, lit_note_head()) {
        Some(r0) => match p_quoted(r0) {
            Some((id, r1)) => match expect(r1, lit_pw()) {
                Some(r2) => match p_quoted(r2) {
                    Some((pw, r3)) => {
                        let tag_step: Option<(Option<Seq<Seq<char>>>, Seq<char>)> = match expect(
                            r3,
                            lit_tag(),
                        ) {
                            Some(r4) => match p_tags(r4) {
                                Some((ts, r5)) => Some((Some(ts), r5)),
                                None => None,
                            },
                            None => Some((None, r3)),
                        };
                        match tag_step {
                            Some((tag, r6)) => match expect(r6, lit_time()) {
                                Some(r7) => match p_quoted(r7) {
                                    Some((time, r8)) => match expect(r8, lit_ext()) {
                                        Some(r9) => match p_quoted(r9) {
                                            Some((ext, r10)) => match expect(r10, lit_note_end()) {
                                                Some(r11) => Some(
                                                    (
                                                        NoteModel {
                                                            id,
                                                            password: pw,
                                                            tag,
                                                            time,
                                                            extension: ext,
                                                        },
                                                        r11,
                                                    ),
                                                ),
                                                None => None,
                                            },
                                            None => None,
                                        },
                                        None => None,
                                    },
                                    None => None,
                                },
                                None => None,
                            },
                            None => None,
                        }
                    },
                    None => None,
                },
                None => None,
            },
            None => None,
        },
        None => None,
    }
}

/// A successful note record consumes at least one character.
pub proof fn lemma_p_note_shrinks(s: Seq<char>)
    ensures
        p_note(s) matches Some(nr) ==> nr.1.len() < s.len(),
{
    match expect(s, lit_note_head()) {
        Some(r0) => {
            lemma_p_quoted_shrinks(r0);
            match p_quoted(r0) {
                Some((id, r1)) => {
                    match expect(r1, lit_pw()) {
                        Some(r2) => {
                            lemma_p_quoted_shrinks(r2);
                            match p_quoted(r2) {
                                Some((pw, r3)) => {
                                    let tag_step: Option<(Option<Seq<Seq<char>>>, Seq<char>)> =
                                        match expect(r3, lit_tag()) {
                                        Some(r4) => match p_tags(r4) {
                                            Some((ts, r5)) => Some((Some(ts), r5)),
                                            None => None,
                                        },
                                        None => Some((None, r3)),
                                    };
                                    match expect(r3, lit_tag()) {
                                        Some(r4) => {
                                            lemma_p_tags_shrinks(r4);
                                        },
                                        None => {},
                                    }
                                    match tag_step {
                                        Some((tag, r6)) => {
                                            assert(r6.len() <= r3.len());
                                            match expect(r6, lit_time()) {
                                                Some(r7) => {
                                                    lemma_p_quoted_shrinks(r7);
                                                    match p_quoted(r7) {
                                                        Some((time, r8)) => {
                                                            match expect(r8, lit_ext()) {
                                                                Some(r9) => {
                                                                    lemma_p_quoted_shrinks(r9);
                                                                },
                                                                None => {},
                                                            }
                                                        },
                                                        None => {},
                                                    }
                                                },
                                                None => {},
                                            }
                                        },
                                        None => {},
                                    }
                                },
                                None => {},
                            }
                        },
                        None => {},
                    }
                },
                None => {},
            }
        },
        None => {},
    }
}

/// Consume note records until the closing bracket line.
pub open spec fn p_notes(s: Seq<char>) -> Option<(Seq<NoteModel>, Seq<char>)>
    decreases s.len(),
{
    match expect(s, lit_close()) {
        Some(r) => Some((Seq::empty(), r)),
        None => match p_note(s) {
            Some((n, r)) => {
                proof {
                    lemma_p_note_shrinks(s);
                }
                match p_notes(r) {
                    Some((ns, r2)) => Some((seq![n] + ns, r2)),
                    None => None,
                }
            },
            None => None,
        },
    }
}

/// The whole store document back to a collection; `None` on any mismatch
/// or trailing text.
pub open spec fn spec_parse(s: Seq<char>) -> Option<Seq<NoteModel>> {
    match expect(s, lit_header()) {
        Some(r) => match p_notes(r) {
            Some((ns, rest)) => if rest.len() == 0 {
                Some(ns)
            } else {
                None
            },
            None => None,
        },
        None => None,
    }
}

// ---------------------------------------------------------------------
// Round trip: parsing inverts encoding.
// ---------------------------------------------------------------------
proof fn lemma_expect_prefix(lit: Seq<char>, rest: Seq<char>)
    ensures
        expect(lit + rest, lit) == Some(rest),
{
    let s = lit + rest;
    assert(s.subrange(0, lit.len() as int) =~= lit);
    assert(s.skip(lit.len() as int) =~= rest);
}

proof fn lemma_expect_mismatch(s: Seq<char>, lit: Seq<char>, i: int)
    requires
        0 <= i < lit.len(),
        i < s.len(),
        s[i] != lit[i],
    ensures
        expect(s, lit) is None,
{
    if lit.len() <= s.len() && s.subrange(0, lit.len() as int) == lit {
        assert(s.subrange(0, lit.len() as int)[i] == s[i]);
    }
}

proof fn lemma_p_quoted_inverts(c: Seq<char>, rest: Seq<char>)
    ensures
        p_quoted(esc(c) + lit_quote() + rest) == Some((c, rest)),
    decreases c.len(),
{
    reveal_strlit("\"");
    let s = esc(c) + lit_quote() + rest;
    if c.len() == 0 {
        assert(esc(c) =~= Seq::<char>::empty());
        assert(s =~= lit_quote() + rest);
        assert(s[0] == '"');
        assert(s.skip(1) =~= rest);
    } else {
        let c0 = c[0];
        assert(esc(c) == esc_char(c0) + esc(c.skip(1)));
        lemma_p_quoted_inverts(c.skip(1), rest);
        if c0 == '\\' || c0 == '"' {
            assert(s[0] == '\\');
            assert(s[1] == c0);
            assert(s.len() >= 2);
            assert(s.skip(2) =~= esc(c.skip(1)) + lit_quote() + rest);
            assert(seq![c0] + c.skip(1) =~= c);
        } else {
            assert(s[0] == c0);
            assert(s.skip(1) =~= esc(c.skip(1)) + lit_quote() + rest);
            assert(seq![c0] + c.skip(1) =~= c);
        }
    }
}

proof fn lemma_p_tags_inverts(ts: Seq<Seq<char>>, rest: Seq<char>)
    ensures
        p_tags(e_tags(ts) + seq![']'] + rest) == Some((ts, rest)),
    decreases ts.len(),
{
    reveal_strlit("\"");
    reveal_strlit(", ");
    let s = e_tags(ts) + seq![']'] + rest;
    if ts.len() == 0 {
        assert(s =~= seq![']'] + rest);
        assert(s[0] == ']');
        assert(s.skip(1) =~= rest);
        assert(Seq::<Seq<char>>::empty() =~= ts);
    } else if ts.len() == 1 {
        assert(s[0] == '"');
        assert(s.skip(1) =~= esc(ts[0]) + lit_quote() + (seq![']'] + rest));
        lemma_p_quoted_inverts(ts[0], seq![']'] + rest);
        let r = seq![']'] + rest;
        assert(r[0] == ']');
        assert(r.skip(1) =~= rest);
        assert(seq![ts[0]] =~= ts);
    } else {
        assert(s[0] == '"');
        let tail = lit_sep() + e_tags(ts.skip(1)) + seq![']'] + rest;
        assert(s.skip(1) =~= esc(ts[0]) + lit_quote() + tail);
        lemma_p_quoted_inverts(ts[0], tail);
        assert(tail[0] == ',');
        assert(tail[1] == ' ');
        assert(tail[0] != ']');
        assert(tail.len() >= 2);
        assert(tail.skip(2) =~= e_tags(ts.skip(1)) + seq![']'] + rest);
        lemma_p_tags_inverts(ts.skip(1), rest);
        assert(e_tags(ts.skip(1)).len() > 0 ==> tail.skip(2)[0] == '"');
        assert(p_tag_items(tail.skip(2)) == Some((ts.skip(1), rest))) by {
            if ts.skip(1).len() == 0 {
                assert(false);
            } else {
                assert(e_tags(ts.skip(1))[0] == '"');
                assert(tail.skip(2)[0] != ']');
                assert(p_tags(tail.skip(2)) == p_tag_items(tail.skip(2)));
            }
        }
        assert(seq![ts[0]] + ts.skip(1) =~= ts);
    }
}

#[verifier::rlimit(80)]
proof fn lemma_p_note_inverts(n: NoteModel, rest: Seq<char>)
    ensures
        p_note(e_note(n) + rest) == Some((n, rest)),
{
    reveal_strlit("\"");
    reveal_strlit(", tag = [");
    reveal_strlit(", time = \"");
    let s = e_note(n) + rest;
    let x1 = esc(n.id) + lit_quote() + (lit_pw() + esc(n.password) + lit_quote() + e_tagpart(n.tag)
        + lit_time() + esc(n.time) + lit_quote() + lit_ext() + esc(n.extension) + lit_quote()
        + lit_note_end() + rest);
    assert(s =~= lit_note_head() + x1);
    lemma_expect_prefix(lit_note_head(), x1);
    let after_id = lit_pw() + esc(n.password) + lit_quote() + e_tagpart(n.tag) + lit_time() + esc(
        n.time,
    ) + lit_quote() + lit_ext() + esc(n.extension) + lit_quote() + lit_note_end() + rest;
    assert(x1 =~= esc(n.id) + lit_quote() + after_id);
    lemma_p_quoted_inverts(n.id, after_id);
    let x2 = esc(n.password) + lit_quote() + (e_tagpart(n.tag) + lit_time() + esc(n.time)
        + lit_quote() + lit_ext() + esc(n.extension) + lit_quote() + lit_note_end() + rest);
    assert(after_id =~= lit_pw() + x2);
    lemma_expect_prefix(lit_pw(), x2);
    let after_pw = e_tagpart(n.tag) + lit_time() + esc(n.time) + lit_quote() + lit_ext() + esc(
        n.extension,
    ) + lit_quote() + lit_note_end() + rest;
    assert(x2 =~= esc(n.password) + lit_quote() + after_pw);
    lemma_p_quoted_inverts(n.password, after_pw);
    let after_tag = lit_time() + esc(n.time) + lit_quote() + lit_ext() + esc(n.extension)
        + lit_quote() + lit_note_end() + rest;
    match n.tag {
        None => {
            assert(e_tagpart(n.tag) =~= Seq::<char>::empty());
            assert(after_pw =~= after_tag);
            assert(after_tag[3] == lit_time()[3]);
            assert(lit_time()[3] == 'i');
            assert(lit_tag()[3] == 'a');
            assert(after_tag.len() >= lit_time().len());
            lemma_expect_mismatch(after_pw, lit_tag(), 3);
        },
        Some(tags) => {
            let x3 = e_tags(tags) + seq![']'] + after_tag;
            assert(after_pw =~= lit_tag() + x3);
            lemma_expect_prefix(lit_tag(), x3);
            lemma_p_tags_inverts(tags, after_tag);
        },
    }
    let x4 = esc(n.time) + lit_quote() + (lit_ext() + esc(n.extension) + lit_quote()
        + lit_note_end() + rest);
    assert(after_tag =~= lit_time() + x4);
    lemma_expect_prefix(lit_time(), x4);
    let after_time = lit_ext() + esc(n.extension) + lit_quote() + lit_note_end() + rest;
    assert(x4 =~= esc(n.time) + lit_quote() + after_time);
    lemma_p_quoted_inverts(n.time, after_time);
    let x5 = esc(n.extension) + lit_quote() + (lit_note_end() + rest);
    assert(after_time =~= lit_ext() + x5);
    lemma_expect_prefix(lit_ext(), x5);
    assert(x5 =~= esc(n.extension) + lit_quote() + (lit_note_end() + rest));
    lemma_p_quoted_inverts(n.extension, lit_note_end() + rest);
    lemma_expect_prefix(lit_note_end(), rest);
    assert(p_note(s) == Some(
        (NoteModel { id: n.id, password: n.password, tag: n.tag, time: n.time, extension: n.extension }, rest),
    ));
    assert(NoteModel {
        id: n.id,
        password: n.password,
        tag: n.tag,
        time: n.time,
        extension: n.extension,
    } == n);
}

proof fn lemma_p_notes_inverts(ns: Seq<NoteModel>, rest: Seq<char>)
    ensures
        p_notes(e_notes(ns) + lit_close() + rest) == Some((ns, rest)),
    decreases ns.len(),
{
    reveal_strlit("]\n");
    reveal_strlit("{ id = \"");
    let s = e_notes(ns) + lit_close() + rest;
    if ns.len() == 0 {
        assert(s =~= lit_close() + rest);
        lemma_expect_prefix(lit_close(), rest);
        assert(Seq::<NoteModel>::empty() =~= ns);
    } else {
        let tail = e_notes(ns.skip(1)) + lit_close() + rest;
        assert(s =~= e_note(ns[0]) + tail);
        assert(s[0] == '{');
        assert(lit_close()[0] == ']');
        assert(s.len() >= 1);
        lemma_expect_mismatch(s, lit_close(), 0);
        lemma_p_note_inverts(ns[0], tail);
        lemma_p_notes_inverts(ns.skip(1), rest);
        assert(seq![ns[0]] + ns.skip(1) =~= ns);
    }
}

/// Law: loading what was saved yields the same collection. Parsing the
/// document written for any collection succeeds and gives that collection
/// back, field for field and in order.
pub proof fn lemma_save_load_roundtrip(ns: Seq<NoteModel>)
    ensures
        spec_parse(spec_save(ns)) == Some(ns),
{
    let body = e_notes(ns) + lit_close() + Seq::<char>::empty();
    assert(spec_save(ns) =~= lit_header() + body);
    lemma_expect_prefix(lit_header(), body);
    lemma_p_notes_inverts(ns, Seq::<char>::empty());
}

/// Law: re-saving a loaded collection reproduces an equivalent store.
/// Whenever a document parses to a collection, the document written for
/// that collection parses back to it — same ids, passwords, tags,
/// timestamps and extensions, in the same order.
pub proof fn lemma_load_save_equivalent(s: Seq<char>, ns: Seq<NoteModel>)
    requires
        spec_parse(s) == Some(ns),
    ensures
        spec_parse(spec_save(ns)) == Some(ns),
{
    lemma_save_load_roundtrip(ns);
}

// ---------------------------------------------------------------------
// The writer.
// ---------------------------------------------------------------------
proof fn lemma_esc_app(a: Seq<char>, b: Seq<char>)
    ensures
        esc(a + b) == esc(a) + esc(b),
    decreases a.len(),
{
    if a.len() == 0 {
        assert(a + b =~= b);
        assert(esc(a) + esc(b) =~= esc(b));
    } else {
        assert((a + b).skip(1) =~= a.skip(1) + b);
        assert((a + b)[0] == a[0]);
        assert((a + b).len() > 0);
        lemma_esc_app(a.skip(1), b);
        assert(esc(a + b) =~= esc(a) + esc(b));
    }
}

proof fn lemma_esc_snoc(s: Seq<char>, i: int)
    requires
        0 <= i < s.len(),
    ensures
        esc(s.take(i + 1)) == esc(s.take(i)) + esc_char(s[i]),
{
    assert(s.take(i + 1) =~= s.take(i) + seq![s[i]]);
    lemma_esc_app(s.take(i), seq![s[i]]);
    let one = seq![s[i]];
    assert(one.len() == 1 && one[0] == s[i]);
    assert(esc(one) == esc_char(s[i]) + esc(one.skip(1)));
    assert(one.skip(1).len() == 0);
    assert(esc(one.skip(1)) == Seq::<char>::empty());
    assert(esc_char(s[i]) + Seq::<char>::empty() =~= esc_char(s[i]));
}

/// Append the escaped form of `s` to `out`.
fn append_escaped(out: &mut String, s: &str)
    ensures
        final(out)@ == old(out)@ + esc(s@),
{
    let n = s.unicode_len();
    let mut i: usize = 0;
    while i < n
        invariant
            i <= n,
            n == s@.len(),
            out@ == old(out)@ + esc(s@.take(i as int)),
        decreases n - i,
    {
        let c = s.get_char(i);
        if c == '"' || c == '\\' {
            push_char(out, '\\');
            push_char(out, c);
        } else {
            push_char(out, c);
        }
        proof {
            lemma_esc_snoc(s@, i as int);
            assert(out@ =~= old(out)@ + esc(s@.take(i as int + 1)));
        }
        i = i + 1;
    }
    proof {
        assert(s@.take(n as int) =~= s@);
    }
}

proof fn lemma_e_tags_snoc(a: Seq<Seq<char>>, t: Seq<char>)
    ensures
        a.len() == 0 ==> e_tags(a.push(t)) == lit_quote() + esc(t) + lit_quote(),
        a.len() > 0 ==> e_tags(a.push(t)) == e_tags(a) + lit_sep() + (lit_quote() + esc(t)
            + lit_quote()),
    decreases a.len(),
{
    let s = a.push(t);
    if a.len() == 0 {
        assert(s.len() == 1);
        assert(s[0] == t);
    } else {
        assert(s[0] == a[0]);
        assert(s.skip(1) =~= a.skip(1).push(t));
        lemma_e_tags_snoc(a.skip(1), t);
        if a.len() == 1 {
            assert(a.skip(1).len() == 0);
            assert(e_tags(s) =~= e_tags(a) + lit_sep() + (lit_quote() + esc(t) + lit_quote()));
        } else {
            assert(e_tags(s) =~= e_tags(a) + lit_sep() + (lit_quote() + esc(t) + lit_quote()));
        }
    }
}

/// Append the comma-separated quoted tag items to `out`.
fn append_tags(out: &mut String, ts: &Vec<String>)
    ensures
        final(out)@ == old(out)@ + e_tags(strings_view(ts@)),
{
    let n = ts.len();
    let mut i: usize = 0;
    while i < n
        invariant
            i <= n,
            n == ts@.len(),
            out@ == old(out)@ + e_tags(strings_view(ts@).take(i as int)),
        decreases n - i,
    {
        if i > 0 {
            out.append(", ");
        }
        out.append("\"");
        append_escaped(out, ts[i].as_str());
        out.append("\"");
        proof {
            let v = strings_view(ts@);
            lemma_e_tags_snoc(v.take(i as int), v[i as int]);
            assert(v.take(i as int).push(v[i as int]) =~= v.take(i as int + 1));
            assert(out@ =~= old(out)@ + e_tags(v.take(i as int + 1)));
        }
        i = i + 1;
    }
    proof {
        assert(strings_view(ts@).take(n as int) =~= strings_view(ts@));
    }
}

/// Append one note record to `out`.
fn append_note_text(out: &mut String, note: &Note)
    ensures
        final(out)@ == old(out)@ + e_note(note@),
{
    out.append("{ id = \"");
    append_escaped(out, note.id.as_str());
    out.append("\"");
    out.append(", password = \"");
    append_escaped(out, note.password.as_str());
    out.append("\"");
    match &note.tag {
        Some(ts) => {
            out.append(", tag = [");
            append_tags(out, ts);
            out.append("]");
            proof {
                assert("]"@ =~= seq![']']) by {
                    reveal_strlit("]");
                }
                assert(note@.tag == Some(strings_view(ts@)));
                assert(e_tagpart(note@.tag) == lit_tag() + e_tags(strings_view(ts@)) + seq![']']);
            }
        },
        None => {
            proof {
                assert(note@.tag is None);
                assert(e_tagpart(note@.tag) == Seq::<char>::empty());
            }
        },
    }
    proof {
        assert(out@ =~= old(out)@ + lit_note_head() + esc(note@.id) + lit_quote() + lit_pw() + esc(
            note@.password,
        ) + lit_quote() + e_tagpart(note@.tag));
    }
    let ghost mid = out@;
    out.append(", time = \"");
    append_escaped(out, note.time.as_str());
    out.append("\"");
    out.append(", extension = \"");
    append_escaped(out, note.extension.as_str());
    out.append("\"");
    out.append(" },\n");
    proof {
        assert(out@ =~= mid + lit_time() + esc(note@.time) + lit_quote() + lit_ext() + esc(
            note@.extension,
        ) + lit_quote() + lit_note_end());
        assert(out@ =~= old(out)@ + e_note(note@));
    }
}

proof fn lemma_e_notes_app(a: Seq<NoteModel>, b: Seq<NoteModel>)
    ensures
        e_notes(a + b) == e_notes(a) + e_notes(b),
    decreases a.len(),
{
    if a.len() == 0 {
        assert(a + b =~= b);
        assert(e_notes(a) + e_notes(b) =~= e_notes(b));
    } else {
        assert((a + b).skip(1) =~= a.skip(1) + b);
        assert((a + b)[0] == a[0]);
        assert((a + b).len() > 0);
        lemma_e_notes_app(a.skip(1), b);
        assert(e_notes(a + b) =~= e_notes(a) + e_notes(b));
    }
}

/// Write the whole store document for the collection.
pub fn save_collection(file: &NoteFile) -> (r: String)
    ensures
        r@ == spec_save(file@),
{
    let mut out: String = "notes = [\n".to_owned();
    let n = file.notes.len();
    let mut i: usize = 0;
    while i < n
        invariant
            i <= n,
            n == file.notes@.len(),
            out@ == lit_header() + e_notes(file@.take(i as int)),
        decreases n - i,
    {
        append_note_text(&mut out, &file.notes[i]);
        proof {
            assert(file@.take(i as int) + seq![file@[i as int]] =~= file@.take(i as int + 1));
            lemma_e_notes_app(file@.take(i as int), seq![file@[i as int]]);
            assert(e_notes(seq![file@[i as int]]) =~= e_note(file@[i as int])) by {
                let one = seq![file@[i as int]];
                assert(one.len() == 1 && one[0] == file@[i as int]);
                assert(e_notes(one) == e_note(file@[i as int]) + e_notes(one.skip(1)));
                assert(one.skip(1).len() == 0);
                assert(e_notes(one.skip(1)) == Seq::<char>::empty());
            }
            assert(out@ =~= lit_header() + e_notes(file@.take(i as int + 1)));
        }
        i = i + 1;
    }
    proof {
        assert(file@.take(n as int) =~= file@);
    }
    out.append("]\n");
    proof {
        assert(out@ =~= spec_save(file@));
    }
    out
}

// ---------------------------------------------------------------------
// The reader.
// ---------------------------------------------------------------------
/// Match the literal `lit` at position `start`; yield the position after it.
fn x_expect(s: &str, n: usize, start: usize, lit: &str) -> (r: Option<usize>)
    requires
        start <= n,
        n == s@.len(),
    ensures
        (r matches Some(j) ==> start <= j <= n && expect(s@.skip(start as int), lit@) == Some(
            s@.skip(j as int),
        )),
        (r is None ==> expect(s@.skip(start as int), lit@) is None),
{
    let m = lit.unicode_len();
    if m > n - start {
        proof {
            assert(s@.skip(start as int).len() == n - start);
        }
        return None;
    }
    let mut k: usize = 0;
    while k < m
        invariant
            k <= m,
            m == lit@.len(),
            start + m <= n,
            n == s@.len(),
            forall|t: int| 0 <= t < k ==> s@[start + t] == lit@[t],
        decreases m - k,
    {
        if s.get_char(start + k) != lit.get_char(k) {
            proof {
                assert(s@.skip(start as int)[k as int] == s@[start + k as int]);
                lemma_expect_mismatch(s@.skip(start as int), lit@, k as int);
            }
            return None;
        }
        k = k + 1;
    }
    proof {
        assert(s@.skip(start as int).subrange(0, m as int) =~= lit@);
        assert(s@.skip(start as int).skip(m as int) =~= s@.skip((start + m) as int));
    }
    Some(start + m)
}

/// Read a quoted value starting right after its opening quote; yield the
/// unescaped value and the position after the closing quote.
fn x_quoted(s: &str, n: usize, start: usize) -> (r: Option<(String, usize)>)
    requires
        start <= n,
        n == s@.len(),
    ensures
        (r matches Some(cj) ==> start <= cj.1 <= n && p_quoted(s@.skip(start as int)) == Some(
            (cj.0@, s@.skip(cj.1 as int)),
        )),
        (r is None ==> p_quoted(s@.skip(start as int)) is None),
{
    let mut out = String::new();
    let mut pos: usize = start;
    proof {
        assert forall|x: Seq<char>| #[trigger] (Seq::<char>::empty() + x) == x by {
            assert(Seq::<char>::empty() + x =~= x);
        }
    }
    while pos < n
        invariant
            start <= pos <= n,
            n == s@.len(),
            (p_quoted(s@.skip(start as int)) is Some <==> p_quoted(s@.skip(pos as int)) is Some),
            (p_quoted(s@.skip(pos as int)) matches Some(cr) ==> p_quoted(s@.skip(start as int))
                == Some((out@ + cr.0, cr.1))),
        decreases n - pos,
    {
        let c = s.get_char(pos);
        proof {
            assert(s@.skip(pos as int).len() == n - pos);
            assert(s@.skip(pos as int)[0] == s@[pos as int]);
            assert(s@.skip(pos as int).skip(1) =~= s@.skip(pos as int + 1));
        }
        if c == '"' {
            proof {
                assert(p_quoted(s@.skip(pos as int)) == Some(
                    (Seq::<char>::empty(), s@.skip(pos as int + 1)),
                ));
            }
            return Some((out, pos + 1));
        } else if c == '\\' {
            if pos + 1 == n {
                return None;
            }
            let c2 = s.get_char(pos + 1);
            proof {
                assert(s@.skip(pos as int)[1] == s@[pos as int + 1]);
                assert(s@.skip(pos as int).skip(2) =~= s@.skip(pos as int + 2));
            }
            if c2 == '\\' || c2 == '"' {
                let ghost old_out = out@;
                push_char(&mut out, c2);
                proof {
                    assert forall|cr: (Seq<char>, Seq<char>)|
                        p_quoted(s@.skip(pos as int + 2)) == Some(cr) implies p_quoted(
                        s@.skip(start as int),
                    ) == Some((out@ + cr.0, cr.1)) by {
                        assert(old_out + (seq![c2] + cr.0) =~= out@ + cr.0);
                    }
                }
                pos = pos + 2;
            } else {
                return None;
            }
        } else {
            let ghost old_out = out@;
            push_char(&mut out, c);
            proof {
                assert forall|cr: (Seq<char>, Seq<char>)|
                    p_quoted(s@.skip(pos as int + 1)) == Some(cr) implies p_quoted(
                    s@.skip(start as int),
                ) == Some((out@ + cr.0, cr.1)) by {
                    assert(old_out + (seq![c] + cr.0) =~= out@ + cr.0);
                }
            }
            pos = pos + 1;
        }
    }
    proof {
        assert(s@.skip(pos as int).len() == 0);
    }
    None
}

/// Read a tag list body starting right after the opening bracket; yield
/// the tags and the position after the closing bracket.
fn x_tags(s: &str, n: usize, start: usize) -> (r: Option<(Vec<String>, usize)>)
    requires
        start <= n,
        n == s@.len(),
    ensures
        (r matches Some(tj) ==> start <= tj.1 <= n && p_tags(s@.skip(start as int)) == Some(
            (strings_view(tj.0@), s@.skip(tj.1 as int)),
        )),
        (r is None ==> p_tags(s@.skip(start as int)) is None),
{
    if start < n && s.get_char(start) == ']' {
        proof {
            assert(s@.skip(start as int)[0] == s@[start as int]);
            assert(s@.skip(start as int).len() > 0);
            assert(s@.skip(start as int).skip(1) =~= s@.skip(start as int + 1));
            assert(strings_view(Seq::<String>::empty()) =~= Seq::<Seq<char>>::empty());
        }
        let empty_tags: Vec<String> = Vec::new();
        return Some((empty_tags, start + 1));
    }
    proof {
        if start < n {
            assert(s@.skip(start as int)[0] == s@[start as int]);
        } else {
            assert(s@.skip(start as int).len() == 0);
        }
        assert(p_tags(s@.skip(start as int)) == p_tag_items(s@.skip(start as int)));
        assert forall|x: Seq<Seq<char>>| #[trigger] (Seq::<Seq<char>>::empty() + x) == x by {
            assert(Seq::<Seq<char>>::empty() + x =~= x);
        }
    }
    let mut acc: Vec<String> = Vec::new();
    let mut pos: usize = start;
    while pos < n
        invariant
            start <= pos <= n,
            n == s@.len(),
            (p_tag_items(s@.skip(start as int)) is Some <==> p_tag_items(s@.skip(pos as int))
                is Some),
            (p_tag_items(s@.skip(pos as int)) matches Some(tr) ==> p_tag_items(
                s@.skip(start as int),
            ) == Some((strings_view(acc@) + tr.0, tr.1))),
            p_tags(s@.skip(start as int)) == p_tag_items(s@.skip(start as int)),
        decreases n - pos,
    {
        let c = s.get_char(pos);
        proof {
            assert(s@.skip(pos as int).len() == n - pos);
            assert(s@.skip(pos as int)[0] == s@[pos as int]);
            assert(s@.skip(pos as int).skip(1) =~= s@.skip(pos as int + 1));
        }
        if c != '"' {
            return None;
        }
        match x_quoted(s, n, pos + 1) {
            None => {
                return None;
            },
            Some((t, j)) => {
                if j < n && s.get_char(j) == ']' {
                    proof {
                        assert(s@.skip(j as int)[0] == s@[j as int]);
                        assert(s@.skip(j as int).len() > 0);
                        assert(s@.skip(j as int).skip(1) =~= s@.skip(j as int + 1));
                    }
                    let ghost old_acc = acc@;
                    acc.push(t);
                    proof {
                        assert(p_tag_items(s@.skip(pos as int)) == Some(
                            (seq![t@], s@.skip(j as int + 1)),
                        ));
                        assert(strings_view(old_acc) + seq![t@] =~= strings_view(acc@));
                    }
                    return Some((acc, j + 1));
                } else if j < n && s.get_char(j) == ',' && j + 1 < n && s.get_char(j + 1) == ' ' {
                    proof {
                        assert(s@.skip(j as int)[0] == s@[j as int]);
                        assert(s@.skip(j as int)[1] == s@[j as int + 1]);
                        assert(s@.skip(j as int).len() >= 2);
                        assert(s@.skip(j as int).skip(2) =~= s@.skip(j as int + 2));
                    }
                    let ghost old_acc = acc@;
                    acc.push(t);
                    proof {
                        assert forall|tr: (Seq<Seq<char>>, Seq<char>)|
                            p_tag_items(s@.skip(j as int + 2)) == Some(tr) implies p_tag_items(
                            s@.skip(start as int),
                        ) == Some((strings_view(acc@) + tr.0, tr.1)) by {
                            assert(p_tag_items(s@.skip(pos as int)) == Some(
                                (seq![t@] + tr.0, tr.1),
                            ));
                            assert(strings_view(old_acc) + (seq![t@] + tr.0) =~= strings_view(acc@)
                                + tr.0);
                        }
                    }
                    pos = j + 2;
                } else {
                    proof {
                        assert(s@.skip(j as int).len() == n - j);
                        if j < n {
                            assert(s@.skip(j as int)[0] == s@[j as int]);
                        }
                        if j + 1 < n {
                            assert(s@.skip(j as int)[1] == s@[j as int + 1]);
                        }
                    }
                    return None;
                }
            },
        }
    }
    proof {
        assert(s@.skip(pos as int).len() == 0);
    }
    None
}

/// Read one note record starting at its opening brace; yield the note and
/// the position after its trailing newline.
fn x_note(s: &str, n: usize, start: usize) -> (r: Option<(Note, usize)>)
    requires
        start <= n,
        n == s@.len(),
    ensures
        (r matches Some(nj) ==> start <= nj.1 <= n && p_note(s@.skip(start as int)) == Some(
            (nj.0@, s@.skip(nj.1 as int)),
        )),
        (r is None ==> p_note(s@.skip(start as int)) is None),
{
    let r0 = match x_expect(s, n, start, "{ id = \"") {
        Some(j) => j,
        None => {
            return None;
        },
    };
    let (id, r1) = match x_quoted(s, n, r0) {
        Some(c) => c,
        None => {
            return None;
        },
    };
    let r2 = match x_expect(s, n, r1, ", password = \"") {
        Some(j) => j,
        None => {
            return None;
        },
    };
    let (pw, r3) = match x_quoted(s, n, r2) {
        Some(c) => c,
        None => {
            return None;
        },
    };
    let (tag, r6) = match x_expect(s, n, r3, ", tag = [") {
        Some(r4) => match x_tags(s, n, r4) {
            Some((ts, r5)) => (Some(ts), r5),
            None => {
                return None;
            },
        },
        None => (None, r3),
    };
    let r7 = match x_expect(s, n, r6, ", time = \"") {
        Some(j) => j,
        None => {
            return None;
        },
    };
    let (time, r8) = match x_quoted(s, n, r7) {
        Some(c) => c,
        None => {
            return None;
        },
    };
    let r9 = match x_expect(s, n, r8, ", extension = \"") {
        Some(j) => j,
        None => {
            return None;
        },
    };
    let (ext, r10) = match x_quoted(s, n, r9) {
        Some(c) => c,
        None => {
            return None;
        },
    };
    let r11 = match x_expect(s, n, r10, " },\n") {
        Some(j) => j,
        None => {
            return None;
        },
    };
    let note = Note { id, password: pw, tag, time, extension: ext };
    Some((note, r11))
}

/// Read note records until the closing bracket line; yield the notes and
/// the position after it.
fn x_notes(s: &str, n: usize, start: usize) -> (r: Option<(Vec<Note>, usize)>)
    requires
        start <= n,
        n == s@.len(),
    ensures
        (r matches Some(vj) ==> start <= vj.1 <= n && p_notes(s@.skip(start as int)) == Some(
            (notes_view(vj.0@), s@.skip(vj.1 as int)),
        )),
        (r is None ==> p_notes(s@.skip(start as int)) is None),
{
    let mut acc: Vec<Note> = Vec::new();
    let mut pos: usize = start;
    proof {
        assert forall|x: Seq<NoteModel>| #[trigger] (Seq::<NoteModel>::empty() + x) == x by {
            assert(Seq::<NoteModel>::empty() + x =~= x);
        }
    }
    loop
        invariant
            start <= pos <= n,
            n == s@.len(),
            (p_notes(s@.skip(start as int)) is Some <==> p_notes(s@.skip(pos as int)) is Some),
            (p_notes(s@.skip(pos as int)) matches Some(vr) ==> p_notes(s@.skip(start as int))
                == Some((notes_view(acc@) + vr.0, vr.1))),
        decreases n - pos,
    {
        match x_expect(s, n, pos, "]\n") {
            Some(j) => {
                proof {
                    assert(p_notes(s@.skip(pos as int)) == Some(
                        (Seq::<NoteModel>::empty(), s@.skip(j as int)),
                    ));
                }
                return Some((acc, j));
            },
            None => {
                match x_note(s, n, pos) {
                    Some((note, j)) => {
                        proof {
                            lemma_p_note_shrinks(s@.skip(pos as int));
                            assert(s@.skip(j as int).len() == n - j);
                            assert(s@.skip(pos as int).len() == n - pos);
                        }
                        let ghost old_acc = acc@;
                        acc.push(note);
                        proof {
                            assert forall|vr: (Seq<NoteModel>, Seq<char>)|
                                p_notes(s@.skip(j as int)) == Some(vr) implies p_notes(
                                s@.skip(start as int),
                            ) == Some((notes_view(acc@) + vr.0, vr.1)) by {
                                assert(p_notes(s@.skip(pos as int)) == Some(
                                    (seq![note@] + vr.0, vr.1),
                                ));
                                assert(notes_view(old_acc) + (seq![note@] + vr.0) =~= notes_view(
                                    acc@,
                                ) + vr.0);
                            }
                        }
                        pos = j;
                    },
                    None => {
                        return None;
                    },
                }
            },
        }
    }
}

/// Read the whole store document back into a collection.
///
/// Succeeds exactly on a well-shaped document whose records carry
/// pairwise distinct ids; any other text is a corrupt store.
pub fn load_collection(s: &str) -> (r: Result<NoteFile, Error>)
    ensures
        (r matches Ok(f) ==> spec_parse(s@) == Some(f@) && unique_ids(f@)),
        (r matches Err(e) ==> e == Error::StoreCorrupt && (spec_parse(s@) is None || !unique_ids(
            spec_parse(s@).unwrap(),
        ))),
{
    let n = s.unicode_len();
    proof {
        assert(s@.skip(0) =~= s@);
    }
    let i = match x_expect(s, n, 0, "notes = [\n") {
        Some(i) => i,
        None => {
            return Err(Error::StoreCorrupt);
        },
    };
    let (v, j) = match x_notes(s, n, i) {
        Some(vj) => vj,
        None => {
            return Err(Error::StoreCorrupt);
        },
    };
    if j != n {
        proof {
            assert(s@.skip(j as int).len() == n - j);
        }
        return Err(Error::StoreCorrupt);
    }
    proof {
        assert(s@.skip(j as int).len() == 0);
    }
    let file = NoteFile { notes: v };
    if crate::ops::has_unique_ids(&file) {
        Ok(file)
    } else {
        Err(Error::StoreCorrupt)
    }
}

} // verus!
