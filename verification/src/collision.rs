//! Destinations that coincide.
//!
//! When a planned destination names the same path as one already assigned,
//! the file gets the first free name of the series `stem_2.ext`,
//! `stem_3.ext`, ... in the same directory. This module states that rule
//! and proves that it always finds a name and that the names it assigns
//! never coincide.

use crate::paths::{
    extension_of, extension_text, file_name, is_plain_name, join, lemma_file_name_of_join,
    lemma_file_name_plain, lemma_join_distinct, lemma_same_path_same_name,
    lemma_stem_and_extension, parent, same_path, stem_text, with_file_name, SEPARATOR,
};
use crate::structs::is_taken;
use crate::text::{decimal, lemma_decimal_injective, lemma_numeral_value_of_decimal};
use vstd::prelude::*;
use vstd::set_lib::{lemma_int_range, lemma_len_subset, set_int_range};

verus! {

/// The first number that a name in the series carries.
pub const FIRST_SUFFIX: u128 = 2;

/// The final name of `path` with the number `n` behind its stem:
/// `stem_n.ext`. The dot is written even where the extension is empty.
pub open spec fn suffixed_name(path: Seq<char>, n: nat) -> Seq<char> {
    stem_text(path) + seq!['_'] + decimal(n) + seq!['.'] + extension_text(path)
}

/// `path` with the number `n` behind the stem of its final name.
pub open spec fn sequential_candidate(path: Seq<char>, n: nat) -> Seq<char> {
    with_file_name(path, suffixed_name(path, n))
}

/// Whether `n` is the number of the first free name in the series of
/// `path`: no assigned path has that name, and the names with smaller
/// numbers are all assigned.
pub open spec fn is_first_free(path: Seq<char>, assigned: Seq<Seq<char>>, n: nat) -> bool {
    &&& n >= FIRST_SUFFIX
    &&& !is_taken(assigned, sequential_candidate(path, n))
    &&& forall|k: nat|
        FIRST_SUFFIX <= k < n ==> is_taken(assigned, #[trigger] sequential_candidate(path, k))
}

/// The number of the first free name in the series of `path`.
pub open spec fn first_free(path: Seq<char>, assigned: Seq<Seq<char>>) -> nat {
    choose|n: nat| is_first_free(path, assigned, n)
}

/// The next name of the series of `path` that no assigned path has.
pub open spec fn sequential_name(path: Seq<char>, assigned: Seq<Seq<char>>) -> Seq<char> {
    sequential_candidate(path, first_free(path, assigned))
}

/// Where a file goes whose planned destination is `candidate`: there, if
/// the destination is free, and else to the next free name of its series.
pub open spec fn resolved(candidate: Seq<char>, assigned: Seq<Seq<char>>) -> Seq<char> {
    if is_taken(assigned, candidate) {
        sequential_name(candidate, assigned)
    } else {
        candidate
    }
}

/// The destinations that a list of planned destinations ends up with, when
/// each in turn is resolved against those assigned before it.
pub open spec fn resolve_all(planned: Seq<Seq<char>>) -> Seq<Seq<char>>
    decreases planned.len(),
{
    if planned.len() == 0 {
        Seq::empty()
    } else {
        let before = resolve_all(planned.drop_last());
        before.push(resolved(planned.last(), before))
    }
}

/// Whether no two of the paths are the same.
pub open spec fn pairwise_distinct(paths: Seq<Seq<char>>) -> bool {
    forall|i: int, j: int|
        0 <= i < j < paths.len() ==> !same_path(#[trigger] paths[i], #[trigger] paths[j])
}

/// The path that the names of a series are joined to.
pub open spec fn series_base(path: Seq<char>) -> Seq<char> {
    match file_name(path) {
        Some(_) => parent(path)->0,
        None => path,
    }
}

/// A name of the series is a plain name, and longer than the final name it
/// is made from.
pub proof fn lemma_suffixed_name_plain(path: Seq<char>, n: nat)
    ensures
        is_plain_name(suffixed_name(path, n)),
        sequential_candidate(path, n) == join(series_base(path), suffixed_name(path, n)),
        file_name(path) matches Some(name) ==> suffixed_name(path, n).len() > name.len(),
{
    let stem = stem_text(path);
    let ext = extension_text(path);
    let name = suffixed_name(path, n);
    lemma_numeral_value_of_decimal(n);
    let digits = decimal(n);
    assert(name.len() == stem.len() + 1 + digits.len() + 1 + ext.len());
    if let Some(last) = file_name(path) {
        lemma_file_name_plain(path);
        lemma_stem_and_extension(last);
        if let Some(e) = extension_of(last) {
            assert(last.len() == stem.len() + 1 + ext.len());
        }
    }
    assert forall|k: int| 0 <= k < name.len() implies name[k] != SEPARATOR by {
        if k < stem.len() {
            assert(name[k] == stem[k]);
        } else if k == stem.len() {
            assert(name[k] == '_');
        } else if k < stem.len() + 1 + digits.len() {
            assert(name[k] == digits[k - stem.len() - 1]);
        } else if k == stem.len() + 1 + digits.len() {
            assert(name[k] == '.');
        } else {
            assert(name[k] == ext[k - stem.len() - digits.len() - 2]);
        }
    }
}

/// Different numbers give different names.
pub proof fn lemma_suffixed_names_differ(path: Seq<char>, n: nat, m: nat)
    requires
        n != m,
    ensures
        suffixed_name(path, n) != suffixed_name(path, m),
{
    let stem = stem_text(path);
    let ext = extension_text(path);
    let a = suffixed_name(path, n);
    let b = suffixed_name(path, m);
    if a == b {
        let x = decimal(n);
        let y = decimal(m);
        assert(a.len() == stem.len() + 1 + x.len() + 1 + ext.len());
        assert(b.len() == stem.len() + 1 + y.len() + 1 + ext.len());
        assert(x.len() == y.len());
        assert forall|k: int| 0 <= k < x.len() implies x[k] == y[k] by {
            assert(a[stem.len() + 1 + k] == x[k]);
            assert(b[stem.len() + 1 + k] == y[k]);
        }
        assert(x =~= y);
        lemma_decimal_injective(n, m);
    }
}

/// Different numbers give different paths.
pub proof fn lemma_candidates_distinct(path: Seq<char>, n: nat, m: nat)
    requires
        n != m,
    ensures
        !same_path(sequential_candidate(path, n), sequential_candidate(path, m)),
{
    lemma_suffixed_name_plain(path, n);
    lemma_suffixed_name_plain(path, m);
    lemma_suffixed_names_differ(path, n, m);
    lemma_join_distinct(series_base(path), suffixed_name(path, n), suffixed_name(path, m));
}

/// No name of the series is the path itself.
pub proof fn lemma_candidate_differs_from_path(path: Seq<char>, n: nat)
    ensures
        !same_path(path, sequential_candidate(path, n)),
        !same_path(sequential_candidate(path, n), path),
{
    lemma_suffixed_name_plain(path, n);
    lemma_file_name_of_join(series_base(path), suffixed_name(path, n));
    if same_path(path, sequential_candidate(path, n)) {
        lemma_same_path_same_name(path, sequential_candidate(path, n));
    }
}

/// A list of different numbers below `bound` has at most `bound` entries.
pub proof fn lemma_distinct_indices_bound(hits: Seq<int>, bound: nat)
    requires
        hits.no_duplicates(),
        forall|j: int| 0 <= j < hits.len() ==> 0 <= #[trigger] hits[j] < bound,
    ensures
        hits.len() <= bound,
{
    let range = set_int_range(0, bound as int);
    lemma_int_range(0, bound as int);
    hits.unique_seq_to_set();
    assert(hits.to_set().subset_of(range)) by {
        assert forall|x: int| hits.to_set().contains(x) implies range.contains(x) by {
            let j = choose|j: int| 0 <= j < hits.len() && hits[j] == x;
            assert(0 <= hits[j] < bound);
        }
    }
    lemma_len_subset(hits.to_set(), range);
}

/// The search for a free name, from the number `n` on: the names below `n`
/// are assigned, each to the entry that `hits` records.
proof fn lemma_search_finds(path: Seq<char>, assigned: Seq<Seq<char>>, n: nat, hits: Seq<int>)
    requires
        n >= FIRST_SUFFIX,
        hits.len() == n - FIRST_SUFFIX,
        hits.no_duplicates(),
        forall|j: int|
            0 <= j < hits.len() ==> 0 <= #[trigger] hits[j] < assigned.len() && same_path(
                assigned[hits[j]],
                sequential_candidate(path, (j + FIRST_SUFFIX) as nat),
            ),
    ensures
        exists|m: nat| is_first_free(path, assigned, m) && m <= assigned.len() + FIRST_SUFFIX,
    decreases assigned.len() + FIRST_SUFFIX - n,
{
    lemma_distinct_indices_bound(hits, assigned.len());
    assert forall|k: nat| FIRST_SUFFIX <= k < n implies is_taken(
        assigned,
        #[trigger] sequential_candidate(path, k),
    ) by {
        let j = (k - FIRST_SUFFIX) as int;
        assert(same_path(assigned[hits[j]], sequential_candidate(path, (j + FIRST_SUFFIX) as nat)));
    }
    let candidate = sequential_candidate(path, n);
    if !is_taken(assigned, candidate) {
        assert(is_first_free(path, assigned, n));
    } else {
        let i = choose|i: int|
            0 <= i < assigned.len() && same_path(#[trigger] assigned[i], candidate);
        let more = hits.push(i);
        assert forall|a: int, b: int| 0 <= a < b < more.len() implies more[a] != more[b] by {
            if b == hits.len() && more[a] == i {
                assert(same_path(
                    assigned[hits[a]],
                    sequential_candidate(path, (a + FIRST_SUFFIX) as nat),
                ));
                lemma_candidates_distinct(path, (a + FIRST_SUFFIX) as nat, n);
            }
        }
        assert(more.no_duplicates());
        assert forall|j: int| 0 <= j < more.len() implies 0 <= #[trigger] more[j]
            < assigned.len() && same_path(
            assigned[more[j]],
            sequential_candidate(path, (j + FIRST_SUFFIX) as nat),
        ) by {
            if j < hits.len() {
                assert(more[j] == hits[j]);
            }
        }
        lemma_distinct_indices_bound(more, assigned.len());
        lemma_search_finds(path, assigned, n + 1, more);
    }
}

/// The series of every path has a free name, and its number is at most the
/// number of assigned paths plus two. It is the only number that
/// `is_first_free` holds of.
pub proof fn lemma_first_free(path: Seq<char>, assigned: Seq<Seq<char>>)
    ensures
        is_first_free(path, assigned, first_free(path, assigned)),
        first_free(path, assigned) <= assigned.len() + FIRST_SUFFIX,
        forall|n: nat| is_first_free(path, assigned, n) ==> n == first_free(path, assigned),
        !is_taken(assigned, sequential_name(path, assigned)),
{
    lemma_search_finds(path, assigned, FIRST_SUFFIX as nat, Seq::empty());
    let m = choose|m: nat| is_first_free(path, assigned, m) && m <= assigned.len() + FIRST_SUFFIX;
    let f = first_free(path, assigned);
    assert(is_first_free(path, assigned, f));
    assert forall|n: nat| is_first_free(path, assigned, n) implies n == f by {
        if n < f {
            assert(is_taken(assigned, sequential_candidate(path, n)));
        }
        if f < n {
            assert(is_taken(assigned, sequential_candidate(path, f)));
        }
    }
}

/// A resolved destination is none of those assigned before.
pub proof fn lemma_resolved_is_free(candidate: Seq<char>, assigned: Seq<Seq<char>>)
    ensures
        !is_taken(assigned, resolved(candidate, assigned)),
{
    lemma_first_free(candidate, assigned);
}

/// Resolving keeps the number of destinations, and each destination is the
/// planned one resolved against those before it.
pub proof fn lemma_resolve_all_step(planned: Seq<Seq<char>>, i: int)
    requires
        0 <= i < planned.len(),
    ensures
        resolve_all(planned).len() == planned.len(),
        resolve_all(planned.take(i)) == resolve_all(planned).take(i),
        resolve_all(planned)[i] == resolved(planned[i], resolve_all(planned.take(i))),
    decreases planned.len(),
{
    let head = planned.drop_last();
    lemma_resolve_all_len(planned);
    lemma_resolve_all_len(head);
    if i == planned.len() - 1 {
        assert(planned.take(i) =~= head);
        assert(resolve_all(planned).take(i) =~= resolve_all(head));
    } else {
        lemma_resolve_all_step(head, i);
        assert(head.take(i) =~= planned.take(i));
        assert(resolve_all(head).take(i) =~= resolve_all(planned).take(i));
    }
}

/// Resolving keeps the number of destinations.
pub proof fn lemma_resolve_all_len(planned: Seq<Seq<char>>)
    ensures
        resolve_all(planned).len() == planned.len(),
    decreases planned.len(),
{
    if planned.len() > 0 {
        lemma_resolve_all_len(planned.drop_last());
    }
}

/// However many planned destinations coincide, no two files end up at the
/// same destination.
pub proof fn lemma_resolve_all_distinct(planned: Seq<Seq<char>>)
    ensures
        resolve_all(planned).len() == planned.len(),
        pairwise_distinct(resolve_all(planned)),
    decreases planned.len(),
{
    lemma_resolve_all_len(planned);
    if planned.len() > 0 {
        let before = resolve_all(planned.drop_last());
        lemma_resolve_all_distinct(planned.drop_last());
        lemma_resolved_is_free(planned.last(), before);
        let all = resolve_all(planned);
        assert forall|i: int, j: int| 0 <= i < j < all.len() implies !same_path(
            #[trigger] all[i],
            #[trigger] all[j],
        ) by {
            if j == before.len() {
                assert(all[i] == before[i]);
            } else {
                assert(all[i] == before[i] && all[j] == before[j]);
            }
        }
    }
}

/// A file keeps its planned destination unless a destination assigned
/// before it is the same path. The first file of a plan always keeps its
/// own.
pub proof fn lemma_free_destination_is_kept(planned: Seq<Seq<char>>, i: int)
    requires
        0 <= i < planned.len(),
        !is_taken(resolve_all(planned).take(i), planned[i]),
    ensures
        resolve_all(planned)[i] == planned[i],
{
    lemma_resolve_all_step(planned, i);
}

/// The first file of a plan keeps its planned destination.
pub proof fn lemma_first_destination_is_kept(planned: Seq<Seq<char>>)
    requires
        planned.len() > 0,
    ensures
        resolve_all(planned)[0] == planned[0],
{
    lemma_resolve_all_step(planned, 0);
    assert(resolve_all(planned).take(0).len() == 0);
}

/// Where every file of a plan has the same planned destination, the first
/// keeps it and the others get the names of its series in turn: the file
/// at position `i` the name with the number `i + 1`.
pub proof fn lemma_same_destination(path: Seq<char>, planned: Seq<Seq<char>>, i: int)
    requires
        forall|k: int| 0 <= k < planned.len() ==> #[trigger] planned[k] == path,
        0 <= i < planned.len(),
    ensures
        resolve_all(planned).len() == planned.len(),
        i == 0 ==> resolve_all(planned)[i] == path,
        i > 0 ==> resolve_all(planned)[i] == sequential_candidate(path, (i + 1) as nat),
    decreases i,
{
    lemma_resolve_all_step(planned, i);
    let before = resolve_all(planned).take(i);
    if i == 0 {
        assert(before.len() == 0);
    } else {
        assert forall|k: int| 0 <= k < i implies #[trigger] before[k] == (if k == 0 {
            path
        } else {
            sequential_candidate(path, (k + 1) as nat)
        }) by {
            lemma_same_destination(path, planned, k);
        }
        assert(before[0] == path);
        assert(same_path(before[0], path));
        assert(is_taken(before, path));
        let n = (i + 1) as nat;
        assert(!is_taken(before, sequential_candidate(path, n))) by {
            if is_taken(before, sequential_candidate(path, n)) {
                let k = choose|k: int|
                    0 <= k < before.len() && same_path(
                        #[trigger] before[k],
                        sequential_candidate(path, n),
                    );
                if k == 0 {
                    lemma_candidate_differs_from_path(path, n);
                } else {
                    lemma_candidates_distinct(path, (k + 1) as nat, n);
                }
            }
        }
        assert forall|m: nat| FIRST_SUFFIX <= m < n implies is_taken(
            before,
            #[trigger] sequential_candidate(path, m),
        ) by {
            let k = (m - 1) as int;
            assert(before[k] == sequential_candidate(path, (k + 1) as nat));
            assert(same_path(before[k], sequential_candidate(path, m)));
        }
        assert(is_first_free(path, before, n));
        lemma_first_free(path, before);
    }
}

} // verus!
