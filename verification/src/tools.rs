//! The tools behind the command line: sorting by date and extracting.

pub mod sort;

use crate::paths::{file_name_text, join, same_path};
use crate::structs::{file_texts, File};
use vstd::prelude::*;

verus! {

/// Whether an entry of the source directory is moved by an extraction:
/// every entry is, but for the source and the target themselves.
pub open spec fn is_extracted(entry: Seq<char>, source: Seq<char>, target: Seq<char>) -> bool {
    !same_path(entry, source) && !same_path(entry, target)
}

/// The entries among the first `n` that an extraction moves, in order.
pub open spec fn extracted_upto(
    entries: Seq<Seq<char>>,
    n: int,
    source: Seq<char>,
    target: Seq<char>,
) -> Seq<Seq<char>>
    decreases n,
{
    if n <= 0 {
        Seq::empty()
    } else {
        let before = extracted_upto(entries, n - 1, source, target);
        if is_extracted(entries[n - 1], source, target) {
            before.push(entries[n - 1])
        } else {
            before
        }
    }
}

/// The entries that an extraction moves, in order.
pub open spec fn extracted(entries: Seq<Seq<char>>, source: Seq<char>, target: Seq<char>) -> Seq<
    Seq<char>,
> {
    extracted_upto(entries, entries.len() as int, source, target)
}

/// Where an extraction moves an entry: under its own name into the target.
pub open spec fn extraction_destination(entry: Seq<char>, target: Seq<char>) -> Seq<char> {
    join(target, file_name_text(entry))
}

/// Plans the move of the entries of the source directory into the target.
/// An entry that is the source or the target itself stays where it is;
/// every other entry goes under its own name into the target.
///
/// The result holds the number of entries to move, their paths, and their
/// destinations, position by position.
pub fn get_extract_results(entries: &Vec<File>, source: &File, target: &File) -> (r: (
    usize,
    Vec<File>,
    Vec<File>,
))
    ensures
        r.0 == r.1.len(),
        r.0 == r.2.len(),
        file_texts(r.1@) == extracted(file_texts(entries@), source@, target@),
        forall|i: int|
            0 <= i < r.2.len() ==> (#[trigger] r.2[i])@ == extraction_destination(
                r.1[i]@,
                target@,
            ),
{
    let mut vec_old: Vec<File> = Vec::new();
    let mut vec_new: Vec<File> = Vec::new();
    let ghost texts = file_texts(entries@);
    let mut i: usize = 0;
    assert(file_texts(vec_old@) =~= extracted_upto(texts, 0, source@, target@));
    while i < entries.len()
        invariant
            i <= entries.len(),
            texts == file_texts(entries@),
            vec_old.len() == vec_new.len(),
            file_texts(vec_old@) == extracted_upto(texts, i as int, source@, target@),
            forall|k: int|
                0 <= k < vec_new.len() ==> (#[trigger] vec_new[k])@ == extraction_destination(
                    vec_old[k]@,
                    target@,
                ),
        decreases entries.len() - i,
    {
        let old_path = &entries[i];
        assert(texts[i as int] == old_path@);
        if !(*old_path == *source || *old_path == *target) {
            let new_path = target.join_string(&old_path.file_name());
            let ghost grown = file_texts(vec_old@.push(*old_path));
            proof {
                let before = extracted_upto(texts, i as int, source@, target@);
                assert forall|k: int| 0 <= k < grown.len() implies grown[k] == before.push(
                    old_path@,
                )[k] by {
                    if k < vec_old.len() {
                        assert(file_texts(vec_old@)[k] == before[k]);
                    }
                }
                assert(grown =~= before.push(old_path@));
            }
            vec_old.push(old_path.copy());
            vec_new.push(new_path);
            assert(file_texts(vec_old@) =~= grown);
        }
        i += 1;
    }
    (vec_old.len(), vec_old, vec_new)
}

} // verus!
