//! Picking, from what a directory walk found, the files that a pattern accepts.

use vstd::prelude::*;
use crate::pattern::CompiledPattern;
use crate::pattern::finds_match;
use regex::Regex;

verus! {

/// One entry that a directory walk came across: its full path as text, and
/// whether it is a regular file.
#[derive(Debug, Clone, PartialEq, Eq)]
pub struct WalkEntry {
    pub path: String,
    pub is_file: bool,
}

/// The entry is taken: it is a regular file, and the pattern matches
/// somewhere in its full path.
pub open spec fn accepts(re: Regex, entry: WalkEntry) -> bool {
    entry.is_file && finds_match(re, entry.path@)
}

/// `picked` lists, in rising order, the positions of the entries that are taken.
pub open spec fn is_selection(re: Regex, entries: Seq<WalkEntry>, picked: Seq<usize>) -> bool {
    &&& forall|k: int|
        0 <= k < picked.len() ==> (#[trigger] picked[k]) < entries.len() && accepts(
            re,
            entries[picked[k] as int],
        )
    &&& forall|k: int, l: int| 0 <= k < l < picked.len() ==> picked[k] < picked[l]
    &&& forall|i: int|
        0 <= i < entries.len() && accepts(re, #[trigger] entries[i]) ==> picked.contains(i as usize)
}

/// The positions of the entries that are regular files and whose full path
/// the pattern matches, in the order of the walk.
pub fn list_matching_files(entries: &Vec<WalkEntry>, matcher: &CompiledPattern) -> (picked: Vec<usize>)
    ensures
        is_selection(matcher.regex, entries@, picked@),
{
    let mut picked: Vec<usize> = Vec::new();
    let mut i: usize = 0;
    while i < entries.len()
        invariant
            i <= entries@.len(),
            forall|k: int|
                0 <= k < picked@.len() ==> (#[trigger] picked@[k]) < i && accepts(
                    matcher.regex,
                    entries@[picked@[k] as int],
                ),
            forall|k: int, l: int| 0 <= k < l < picked@.len() ==> picked@[k] < picked@[l],
            forall|j: int|
                0 <= j < i && accepts(matcher.regex, #[trigger] entries@[j]) ==> picked@.contains(
                    j as usize,
                ),
        decreases entries@.len() - i,
    {
        let entry = &entries[i];
        if entry.is_file && matcher.is_match(entry.path.as_str()) {
            let ghost before = picked@;
            picked.push(i);
            proof {
                assert(picked@[before.len() as int] == i);
                assert forall|j: int|
                    0 <= j < i + 1 && accepts(matcher.regex, #[trigger] entries@[j]) implies picked@.contains(
                    j as usize,
                ) by {
                    if j < i {
                        let k = choose|k: int| 0 <= k < before.len() && before[k] == j as usize;
                        assert(picked@[k] == j as usize);
                    }
                }
            }
        }
        i += 1;
    }
    picked
}

} // verus!
