//! The manifest: the identities of the pictures that were downloaded, one
//! to a line.

use crate::order::{strictly_ascending, with_texts, TextSet};
use crate::text::{chars_of, split, split_chars, string_of, texts_of, trim_chars, trimmed};
use vstd::prelude::*;

verus! {

/// The entries that `lines` hold: each line trimmed, blank ones left out.
pub open spec fn entries_of(lines: Seq<Seq<char>>) -> Seq<Seq<char>>
    decreases lines.len(),
{
    if lines.len() == 0 {
        Seq::empty()
    } else {
        let rest = entries_of(lines.drop_last());
        let entry = trimmed(lines.last());
        if entry.len() == 0 {
            rest
        } else {
            rest.push(entry)
        }
    }
}

/// The entries of a manifest file with the content `content`, in the order
/// of its lines.
pub open spec fn manifest_entries(content: Seq<char>) -> Seq<Seq<char>> {
    entries_of(split(content, '\n'))
}

/// Reads the entries of a manifest file.
pub fn manifest_lines(content: &str) -> (r: Vec<String>)
    ensures
        r.deep_view() == manifest_entries(content@),
        forall|i: int| 0 <= i < r.len() ==> (#[trigger] r.deep_view()[i]).len() > 0,
{
    let lines = split_chars(&chars_of(content), '\n');
    let ghost all = texts_of(lines@);
    let mut out: Vec<String> = Vec::new();
    let mut i: usize = 0;
    assert(out.deep_view() =~= Seq::empty());
    assert(all.take(0) =~= Seq::empty());
    while i < lines.len()
        invariant
            i <= lines.len(),
            all == texts_of(lines@),
            out.deep_view() == entries_of(all.take(i as int)),
            forall|k: int| 0 <= k < out.len() ==> (#[trigger] out.deep_view()[k]).len() > 0,
        decreases lines.len() - i,
    {
        assert(all.take(i + 1).drop_last() == all.take(i as int));
        let ghost before = out.deep_view();
        let entry = trim_chars(&lines[i]);
        if entry.len() > 0 {
            out.push(string_of(&entry));
            assert(out.deep_view() =~= before.push(entry@));
        }
        i += 1;
    }
    assert(all.take(lines.len() as int) == all);
    out
}

/// The set of identities that a manifest file with the content `content`
/// holds. A file that is missing is read as an empty one, and holds none.
pub fn load_manifest(content: &str) -> (r: TextSet)
    ensures
        r@ == with_texts(Seq::empty(), manifest_entries(content@)),
        forall|id: Seq<char>| r@.contains(id) <==> manifest_entries(content@).contains(id),
        strictly_ascending(r@),
{
    let mut set = TextSet::new();
    set.insert_all(&manifest_lines(content));
    set
}

/// The line that records `identity` in a manifest file.
pub fn manifest_line(identity: &str) -> (r: String)
    ensures
        r@ == identity@.push('\n'),
{
    let mut line = chars_of(identity);
    line.push('\n');
    string_of(&line)
}

} // verus!
