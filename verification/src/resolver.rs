//! Prefix-based id resolution: find which cached notes a user-typed id
//! prefix refers to, and say when it is safe to act.

use vstd::prelude::*;
use crate::notes::{Note, NoteFile, NoteModel};
use crate::text::{is_id_prefix, starts_with_prefix};

verus! {

/// The outcome of resolving a user-typed id prefix against the collection.
#[derive(Debug)]
pub enum ResolverOutcome {
    /// No cached id starts with the prefix.
    NoMatch,
    /// Exactly one cached id starts with the prefix; it is safe to act on
    /// the carried note.
    Unique(Note),
    /// Two or more cached ids start with the prefix; the caller must not
    /// act and should ask for a longer prefix. Carries the match count.
    Ambiguous(usize),
}

/// How many notes of `ns` have an id starting with `p`.
pub open spec fn match_count(ns: Seq<NoteModel>, p: Seq<char>) -> nat
    decreases ns.len(),
{
    if ns.len() == 0 {
        0
    } else {
        match_count(ns.drop_last(), p) + (if is_id_prefix(p, ns.last().id) {
            1nat
        } else {
            0nat
        })
    }
}

/// Law: the match count characterizes the matching indices. It is zero
/// exactly when no id matches, one exactly when a single index matches,
/// and at least two exactly when two distinct indices match.
pub proof fn lemma_match_count_characterizes(ns: Seq<NoteModel>, p: Seq<char>)
    ensures
        (match_count(ns, p) == 0 <==> (forall|i: int|
            0 <= i < ns.len() ==> !is_id_prefix(p, ns[i].id))),
        (match_count(ns, p) == 1 <==> (exists|i: int|
            0 <= i < ns.len() && is_id_prefix(p, ns[i].id) && (forall|j: int|
                0 <= j < ns.len() && is_id_prefix(p, ns[j].id) ==> j == i))),
        (match_count(ns, p) >= 2 <==> (exists|i: int, j: int|
            0 <= i < j < ns.len() && is_id_prefix(p, ns[i].id) && is_id_prefix(p, ns[j].id))),
    decreases ns.len(),
{
    if ns.len() > 0 {
        let pre = ns.drop_last();
        lemma_match_count_characterizes(pre, p);
        assert(forall|i: int| 0 <= i < pre.len() ==> pre[i] == ns[i]);
        let last = ns.len() - 1;
        if is_id_prefix(p, ns[last].id) {
            if match_count(pre, p) == 0 {
                assert(forall|j: int|
                    0 <= j < ns.len() && is_id_prefix(p, ns[j].id) ==> j == last);
            }
            if match_count(pre, p) >= 1 {
                assert(match_count(ns, p) >= 2) by {
                    if match_count(pre, p) == 1 {
                        let i = choose|i: int|
                            0 <= i < pre.len() && is_id_prefix(p, pre[i].id) && (forall|j: int|
                                0 <= j < pre.len() && is_id_prefix(p, pre[j].id) ==> j == i);
                        assert(0 <= i < last && is_id_prefix(p, ns[i].id));
                    } else {
                        let (i, j) = choose|i: int, j: int|
                            0 <= i < j < pre.len() && is_id_prefix(p, pre[i].id) && is_id_prefix(
                                p,
                                pre[j].id,
                            );
                        assert(0 <= i < j < ns.len() && is_id_prefix(p, ns[i].id) && is_id_prefix(
                            p,
                            ns[j].id,
                        ));
                    }
                }
            }
        } else {
            assert(forall|j: int|
                0 <= j < ns.len() && is_id_prefix(p, ns[j].id) ==> 0 <= j < pre.len()
                    && is_id_prefix(p, pre[j].id));
        }
    }
}

/// Resolve a user-typed id prefix against the collection.
///
/// The collection itself is only read: resolution never acts on it. The
/// outcome is `Unique` exactly when one cached id starts with the prefix,
/// `NoMatch` exactly when none does, and `Ambiguous` (with the count)
/// exactly when two or more do.
pub fn resolve(file: &NoteFile, prefix: &str) -> (r: ResolverOutcome)
    ensures
        (r is NoMatch <==> match_count(file@, prefix@) == 0),
        (r is Unique <==> match_count(file@, prefix@) == 1),
        (r is Ambiguous <==> match_count(file@, prefix@) >= 2),
        (r matches ResolverOutcome::Unique(n) ==> exists|i: int|
            0 <= i < file@.len() && is_id_prefix(prefix@, file@[i].id) && n@ == file@[i]),
        (r matches ResolverOutcome::Ambiguous(c) ==> c as nat == match_count(file@, prefix@)),
{
    let n = file.notes.len();
    let mut count: usize = 0;
    let mut idx: usize = 0;
    let mut i: usize = 0;
    while i < n
        invariant
            i <= n,
            n == file.notes@.len(),
            count as nat == match_count(file@.take(i as int), prefix@),
            count <= i,
            count >= 1 ==> idx < i && is_id_prefix(prefix@, file@[idx as int].id),
        decreases n - i,
    {
        proof {
            assert(file@.take(i + 1 as int).drop_last() =~= file@.take(i as int));
            assert(file@.take(i + 1 as int).last() == file@[i as int]);
        }
        if starts_with_prefix(file.notes[i].id.as_str(), prefix) {
            if count == 0 {
                idx = i;
            }
            count = count + 1;
        }
        i = i + 1;
    }
    proof {
        assert(file@.take(n as int) =~= file@);
    }
    if count == 0 {
        ResolverOutcome::NoMatch
    } else if count == 1 {
        ResolverOutcome::Unique(file.notes[idx].duplicate())
    } else {
        ResolverOutcome::Ambiguous(count)
    }
}

} // verus!
