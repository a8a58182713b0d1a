//! Paths as text.
//!
//! A path is a sequence of characters in which `/` separates the names of
//! directories and files. Repeated separators, a separator at the end and the
//! name `.` inside a path say nothing: `a/b`, `a//b`, `a/./b` and `a/b/` name
//! the same entry. A `/` at the front anchors the path at the root, and a `.`
//! at the front at the current directory. Other conventions (drive prefixes,
//! `\` as separator) are not handled.

use crate::text::{
    find_piece_start, lemma_piece_start, lemma_piece_start_no_sep, lemma_piece_start_same,
    piece_start, ranges_equal, rest_end,
};
use vstd::prelude::*;

verus! {

/// The character between the names of a path.
pub const SEPARATOR: char = '/';

/// Whether the path starts at the root directory.
pub open spec fn has_root(s: Seq<char>) -> bool {
    s.len() > 0 && s[0] == SEPARATOR
}

/// Whether the path starts with the name `.` of the current directory.
pub open spec fn starts_at_cur_dir(s: Seq<char>) -> bool {
    s.len() > 0 && s[0] == '.' && (s.len() == 1 || s[1] == SEPARATOR)
}

/// Where the names of the path begin: after the `/` or `.` at its front, if
/// there is one.
pub open spec fn body_start(s: Seq<char>) -> int {
    if has_root(s) || starts_at_cur_dir(s) {
        1
    } else {
        0
    }
}

/// A piece between separators that names nothing: the empty piece and `.`.
pub open spec fn is_skipped(piece: Seq<char>) -> bool {
    piece.len() == 0 || (piece.len() == 1 && piece[0] == '.')
}

/// The piece `..`, which names the directory above.
pub open spec fn is_parent_link(piece: Seq<char>) -> bool {
    piece.len() == 2 && piece[0] == '.' && piece[1] == '.'
}

/// A piece that can stand as one name of a path: not empty, without a
/// separator, and neither `.` nor `..`.
pub open spec fn is_plain_name(name: Seq<char>) -> bool {
    &&& !is_skipped(name)
    &&& !is_parent_link(name)
    &&& forall|k: int| 0 <= k < name.len() ==> name[k] != SEPARATOR
}

/// The last piece of `s[lo..hi)`.
pub open spec fn last_piece(s: Seq<char>, lo: int, hi: int) -> Seq<char> {
    s.subrange(piece_start(s, SEPARATOR, lo, hi), hi)
}

/// Where the last name in `s[lo..hi)` ends: the pieces at the end that name
/// nothing are passed over. The result is `lo` when no name is left.
pub open spec fn trim_end(s: Seq<char>, lo: int, hi: int) -> int
    decreases hi - lo,
    when 0 <= lo && hi <= s.len()
    via trim_end_decreases
{
    if hi <= lo {
        lo
    } else if is_skipped(last_piece(s, lo, hi)) {
        trim_end(s, lo, rest_end(s, SEPARATOR, lo, hi))
    } else {
        hi
    }
}

#[via_fn]
proof fn trim_end_decreases(s: Seq<char>, lo: int, hi: int) {
    if lo < hi {
        lemma_piece_start(s, SEPARATOR, lo, hi);
    }
}

/// The names in `s[lo..hi)`, in order: its pieces without those that name
/// nothing.
pub open spec fn names_in(s: Seq<char>, lo: int, hi: int) -> Seq<Seq<char>>
    decreases hi - lo,
    when 0 <= lo && hi <= s.len()
    via names_in_decreases
{
    if hi <= lo {
        Seq::empty()
    } else {
        let rest = names_in(s, lo, rest_end(s, SEPARATOR, lo, hi));
        if is_skipped(last_piece(s, lo, hi)) {
            rest
        } else {
            rest.push(last_piece(s, lo, hi))
        }
    }
}

#[via_fn]
proof fn names_in_decreases(s: Seq<char>, lo: int, hi: int) {
    if lo < hi {
        lemma_piece_start(s, SEPARATOR, lo, hi);
    }
}

/// The names of the path, in order. `..` counts as a name here.
pub open spec fn names(s: Seq<char>) -> Seq<Seq<char>> {
    names_in(s, body_start(s), s.len() as int)
}

/// Whether two texts name the same path: they are anchored alike and have
/// the same names.
pub open spec fn same_path(a: Seq<char>, b: Seq<char>) -> bool {
    &&& has_root(a) == has_root(b)
    &&& starts_at_cur_dir(a) == starts_at_cur_dir(b)
    &&& names(a) == names(b)
}

/// Where the last name of the path ends.
pub open spec fn name_end(s: Seq<char>) -> int {
    trim_end(s, body_start(s), s.len() as int)
}

/// Where the last name of the path starts.
pub open spec fn name_start(s: Seq<char>) -> int {
    piece_start(s, SEPARATOR, body_start(s), name_end(s))
}

/// Whether the path has a name at all, beyond its anchor.
pub open spec fn has_names(s: Seq<char>) -> bool {
    name_end(s) > body_start(s)
}

/// The final name of the path, unless the path has no names or ends in `..`.
pub open spec fn file_name(s: Seq<char>) -> Option<Seq<char>> {
    if has_names(s) && !is_parent_link(s.subrange(name_start(s), name_end(s))) {
        Some(s.subrange(name_start(s), name_end(s)))
    } else {
        None
    }
}

/// One past the last `.` of a name, or 0 when the name has none.
pub open spec fn after_last_dot(name: Seq<char>) -> int {
    piece_start(name, '.', 0, name.len() as int)
}

/// Whether a name splits into a stem and an extension: it has a `.` that is
/// not its first character, and it is not `..`.
pub open spec fn has_extension(name: Seq<char>) -> bool {
    after_last_dot(name) > 1 && !is_parent_link(name)
}

/// The part of a name after its last `.`, where the name has an extension.
pub open spec fn extension_of(name: Seq<char>) -> Option<Seq<char>> {
    if has_extension(name) {
        Some(name.subrange(after_last_dot(name), name.len() as int))
    } else {
        None
    }
}

/// The part of a name before its last `.`; the whole name where it has no
/// extension.
pub open spec fn stem_of(name: Seq<char>) -> Seq<char> {
    if has_extension(name) {
        name.subrange(0, after_last_dot(name) - 1)
    } else {
        name
    }
}

/// The extension of the path's final name; empty where there is none.
pub open spec fn extension_text(s: Seq<char>) -> Seq<char> {
    match file_name(s) {
        Some(name) => match extension_of(name) {
            Some(ext) => ext,
            None => Seq::empty(),
        },
        None => Seq::empty(),
    }
}

/// The stem of the path's final name; empty where the path has no final
/// name.
pub open spec fn stem_text(s: Seq<char>) -> Seq<char> {
    match file_name(s) {
        Some(name) => stem_of(name),
        None => Seq::empty(),
    }
}

/// The final name of the path; empty where there is none.
pub open spec fn file_name_text(s: Seq<char>) -> Seq<char> {
    match file_name(s) {
        Some(name) => name,
        None => Seq::empty(),
    }
}

/// The path without its last name: the text up to the end of the name
/// before it. A path of only `.` has the empty path as parent; the root and
/// the empty path have none.
pub open spec fn parent(s: Seq<char>) -> Option<Seq<char>> {
    if has_names(s) {
        Some(
            s.subrange(
                0,
                trim_end(s, body_start(s), rest_end(s, SEPARATOR, body_start(s), name_end(s))),
            ),
        )
    } else if !has_root(s) && starts_at_cur_dir(s) {
        Some(Seq::empty())
    } else {
        None
    }
}

/// `rel` seen from `base`: a rooted `rel` stands for itself, any other is
/// written behind `base`, with a separator between them unless `base` is
/// empty or ends in one.
pub open spec fn join(base: Seq<char>, rel: Seq<char>) -> Seq<char> {
    if has_root(rel) {
        rel
    } else if base.len() == 0 || base.last() == SEPARATOR {
        base + rel
    } else {
        base.push(SEPARATOR) + rel
    }
}

/// The path with its final name replaced by `name`; a path without a final
/// name gets `name` joined to it.
pub open spec fn with_file_name(s: Seq<char>, name: Seq<char>) -> Seq<char> {
    match file_name(s) {
        Some(_) => join(parent(s)->0, name),
        None => join(s, name),
    }
}

/// `trim_end` stays inside the range, and what it leaves ends in a name.
pub proof fn lemma_trim_end(s: Seq<char>, lo: int, hi: int)
    requires
        0 <= lo <= hi <= s.len(),
    ensures
        lo <= trim_end(s, lo, hi) <= hi,
        trim_end(s, lo, hi) > lo ==> !is_skipped(last_piece(s, lo, trim_end(s, lo, hi))),
        trim_end(s, lo, trim_end(s, lo, hi)) == trim_end(s, lo, hi),
        names_in(s, lo, trim_end(s, lo, hi)) == names_in(s, lo, hi),
    decreases hi - lo,
{
    if hi > lo {
        lemma_piece_start(s, SEPARATOR, lo, hi);
        if is_skipped(last_piece(s, lo, hi)) {
            lemma_trim_end(s, lo, rest_end(s, SEPARATOR, lo, hi));
        }
    }
}

/// Where a range ends in a name, its names are those before that name and
/// then the name itself.
pub proof fn lemma_names_in_last(s: Seq<char>, lo: int, hi: int)
    requires
        0 <= lo <= hi <= s.len(),
        trim_end(s, lo, hi) > lo,
    ensures
        names_in(s, lo, hi) == names_in(
            s,
            lo,
            rest_end(s, SEPARATOR, lo, trim_end(s, lo, hi)),
        ).push(last_piece(s, lo, trim_end(s, lo, hi))),
        names_in(s, lo, hi).len() > 0,
        names_in(s, lo, hi).last() == last_piece(s, lo, trim_end(s, lo, hi)),
{
    lemma_trim_end(s, lo, hi);
    let e = trim_end(s, lo, hi);
    lemma_piece_start(s, SEPARATOR, lo, e);
}

/// A range in which nothing is left after trimming has no names.
pub proof fn lemma_names_in_none(s: Seq<char>, lo: int, hi: int)
    requires
        0 <= lo <= hi <= s.len(),
        trim_end(s, lo, hi) <= lo,
    ensures
        names_in(s, lo, hi).len() == 0,
{
    lemma_trim_end(s, lo, hi);
}

/// The final name of a path is the last of its names, unless that is `..`.
pub proof fn lemma_file_name_is_last_name(s: Seq<char>)
    ensures
        file_name(s) == (if names(s).len() > 0 && !is_parent_link(names(s).last()) {
            Some(names(s).last())
        } else {
            None
        }),
        has_names(s) <==> names(s).len() > 0,
{
    let lo = body_start(s);
    lemma_trim_end(s, lo, s.len() as int);
    if has_names(s) {
        lemma_names_in_last(s, lo, s.len() as int);
    } else {
        lemma_names_in_none(s, lo, s.len() as int);
    }
}

/// Texts that name the same path have the same final name, stem and
/// extension.
pub proof fn lemma_same_path_same_name(a: Seq<char>, b: Seq<char>)
    requires
        same_path(a, b),
    ensures
        file_name(a) == file_name(b),
        stem_text(a) == stem_text(b),
        extension_text(a) == extension_text(b),
        file_name_text(a) == file_name_text(b),
{
    lemma_file_name_is_last_name(a);
    lemma_file_name_is_last_name(b);
}

/// Naming the same path is an equivalence.
pub proof fn lemma_same_path_equivalence(a: Seq<char>, b: Seq<char>, c: Seq<char>)
    ensures
        same_path(a, a),
        same_path(a, b) ==> same_path(b, a),
        same_path(a, b) && same_path(b, c) ==> same_path(a, c),
{
}

/// A plain name joined to any path is that path's final name.
pub proof fn lemma_file_name_of_join(base: Seq<char>, name: Seq<char>)
    requires
        is_plain_name(name),
    ensures
        file_name(join(base, name)) == Some(name),
{
    let t = join(base, name);
    assert(name[0] != SEPARATOR);
    let front = (t.len() - name.len()) as int;
    assert(t.subrange(front, t.len() as int) =~= name);
    assert(forall|k: int| front <= k < t.len() ==> t[k] == name[k - front]);
    let lo = body_start(t);
    if front == 0 {
        assert(t =~= name);
        assert(!starts_at_cur_dir(name));
        assert(lo == 0);
    } else {
        assert(t[front - 1] == SEPARATOR);
        if front == 1 {
            assert(has_root(t));
        }
        assert(lo <= front);
    }
    let end = t.len() as int;
    lemma_piece_start_no_sep(t, SEPARATOR, lo, front, end);
    lemma_piece_start(t, SEPARATOR, lo, front);
    if front > lo {
        assert(piece_start(t, SEPARATOR, lo, front) == front);
    }
    assert(piece_start(t, SEPARATOR, lo, end) == front);
    assert(last_piece(t, lo, end) =~= name);
    assert(trim_end(t, lo, end) == end);
}

/// Joining different plain names to one path gives different paths.
pub proof fn lemma_join_distinct(base: Seq<char>, first: Seq<char>, second: Seq<char>)
    requires
        is_plain_name(first),
        is_plain_name(second),
        first != second,
    ensures
        !same_path(join(base, first), join(base, second)),
{
    lemma_file_name_of_join(base, first);
    lemma_file_name_of_join(base, second);
    if same_path(join(base, first), join(base, second)) {
        lemma_same_path_same_name(join(base, first), join(base, second));
    }
}

/// The final name of a path is a plain name.
pub proof fn lemma_file_name_plain(s: Seq<char>)
    requires
        file_name(s) is Some,
    ensures
        is_plain_name(file_name(s)->0),
        file_name(s)->0.len() > 0,
{
    let lo = body_start(s);
    lemma_trim_end(s, lo, s.len() as int);
    lemma_piece_start(s, SEPARATOR, lo, name_end(s));
}

/// The stem and the extension of a plain name hold no separator, and
/// together they are shorter than the name by at most the `.` between them.
pub proof fn lemma_stem_and_extension(name: Seq<char>)
    requires
        forall|k: int| 0 <= k < name.len() ==> name[k] != SEPARATOR,
    ensures
        forall|k: int| 0 <= k < stem_of(name).len() ==> stem_of(name)[k] != SEPARATOR,
        extension_of(name) matches Some(ext) ==> {
            &&& forall|k: int| 0 <= k < ext.len() ==> ext[k] != SEPARATOR
            &&& forall|k: int| 0 <= k < ext.len() ==> ext[k] != '.'
            &&& name == stem_of(name).push('.') + ext
        },
        extension_of(name) is None ==> name == stem_of(name),
{
    lemma_piece_start(name, '.', 0, name.len() as int);
    if let Some(ext) = extension_of(name) {
        assert(name =~= stem_of(name).push('.') + ext);
    }
}

/// Where the names of the path begin.
pub fn find_body_start(v: &Vec<char>) -> (r: usize)
    ensures
        r == body_start(v@),
        r <= v.len(),
{
    if v.len() == 0 {
        0
    } else if v[0] == SEPARATOR {
        1
    } else if v[0] == '.' && (v.len() == 1 || v[1] == SEPARATOR) {
        1
    } else {
        0
    }
}

/// Where the last name in `v[lo..hi)` ends.
pub fn find_trim_end(v: &Vec<char>, lo: usize, hi: usize) -> (r: usize)
    requires
        lo <= hi <= v.len(),
    ensures
        r == trim_end(v@, lo as int, hi as int),
        lo <= r <= hi,
{
    let mut end = hi;
    while end > lo
        invariant
            lo <= end <= hi <= v.len(),
            trim_end(v@, lo as int, hi as int) == trim_end(v@, lo as int, end as int),
        decreases end,
    {
        let start = find_piece_start(v, SEPARATOR, lo, end);
        proof {
            lemma_piece_start(v@, SEPARATOR, lo as int, end as int);
        }
        let skipped = end == start || (end - start == 1 && v[start] == '.');
        assert(skipped == is_skipped(last_piece(v@, lo as int, end as int)));
        if !skipped {
            return end;
        }
        end = if start > lo {
            start - 1
        } else {
            lo
        };
    }
    end
}

/// Whether two texts name the same path.
pub fn same_path_chars(a: &Vec<char>, b: &Vec<char>) -> (r: bool)
    ensures
        r == same_path(a@, b@),
{
    let a_rooted = a.len() > 0 && a[0] == SEPARATOR;
    let b_rooted = b.len() > 0 && b[0] == SEPARATOR;
    let a_lo = find_body_start(a);
    let b_lo = find_body_start(b);
    if a_rooted != b_rooted || a_lo != b_lo {
        return false;
    }
    assert(starts_at_cur_dir(a@) == starts_at_cur_dir(b@));
    let mut a_end = a.len();
    let mut b_end = b.len();
    loop
        invariant
            a_lo == body_start(a@),
            b_lo == body_start(b@),
            a_lo <= a_end <= a.len(),
            b_lo <= b_end <= b.len(),
            has_root(a@) == has_root(b@),
            starts_at_cur_dir(a@) == starts_at_cur_dir(b@),
            (names(a@) == names(b@)) == (names_in(a@, a_lo as int, a_end as int) == names_in(
                b@,
                b_lo as int,
                b_end as int,
            )),
        decreases a_end,
    {
        let ghost a_names = names_in(a@, a_lo as int, a_end as int);
        let ghost b_names = names_in(b@, b_lo as int, b_end as int);
        let a_stop = find_trim_end(a, a_lo, a_end);
        let b_stop = find_trim_end(b, b_lo, b_end);
        proof {
            lemma_trim_end(a@, a_lo as int, a_end as int);
            lemma_trim_end(b@, b_lo as int, b_end as int);
        }
        if a_stop == a_lo || b_stop == b_lo {
            proof {
                if a_stop == a_lo {
                    lemma_names_in_none(a@, a_lo as int, a_end as int);
                } else {
                    lemma_names_in_last(a@, a_lo as int, a_end as int);
                }
                if b_stop == b_lo {
                    lemma_names_in_none(b@, b_lo as int, b_end as int);
                } else {
                    lemma_names_in_last(b@, b_lo as int, b_end as int);
                }
                if a_stop == a_lo && b_stop == b_lo {
                    assert(a_names =~= b_names);
                }
            }
            return a_stop == a_lo && b_stop == b_lo;
        }
        let a_start = find_piece_start(a, SEPARATOR, a_lo, a_stop);
        let b_start = find_piece_start(b, SEPARATOR, b_lo, b_stop);
        let ghost a_rest = names_in(
            a@,
            a_lo as int,
            rest_end(a@, SEPARATOR, a_lo as int, a_stop as int),
        );
        let ghost b_rest = names_in(
            b@,
            b_lo as int,
            rest_end(b@, SEPARATOR, b_lo as int, b_stop as int),
        );
        let ghost a_piece = last_piece(a@, a_lo as int, a_stop as int);
        let ghost b_piece = last_piece(b@, b_lo as int, b_stop as int);
        proof {
            lemma_names_in_last(a@, a_lo as int, a_end as int);
            lemma_names_in_last(b@, b_lo as int, b_end as int);
            lemma_piece_start(a@, SEPARATOR, a_lo as int, a_stop as int);
            lemma_piece_start(b@, SEPARATOR, b_lo as int, b_stop as int);
            assert(a_names == a_rest.push(a_piece));
            assert(b_names == b_rest.push(b_piece));
        }
        if !ranges_equal(a, a_start, a_stop, b, b_start, b_stop) {
            assert(a_names.last() != b_names.last());
            return false;
        }
        proof {
            if a_rest == b_rest {
                assert(a_names =~= b_names);
            }
            if a_names == b_names {
                assert(a_rest =~= a_names.drop_last());
                assert(b_rest =~= b_names.drop_last());
            }
        }
        a_end = if a_start > a_lo {
            a_start - 1
        } else {
            a_lo
        };
        b_end = if b_start > b_lo {
            b_start - 1
        } else {
            b_lo
        };
    }
}

/// The range of characters that holds the final name of the path, if it has
/// one.
pub fn find_file_name(v: &Vec<char>) -> (r: Option<(usize, usize)>)
    ensures
        match r {
            Some((start, end)) => {
                &&& start <= end <= v.len()
                &&& file_name(v@) == Some(v@.subrange(start as int, end as int))
                &&& start == name_start(v@)
                &&& end == name_end(v@)
            },
            None => file_name(v@) is None,
        },
{
    let lo = find_body_start(v);
    let end = find_trim_end(v, lo, v.len());
    if end <= lo {
        return None;
    }
    let start = find_piece_start(v, SEPARATOR, lo, end);
    if end - start == 2 && v[start] == '.' && v[start + 1] == '.' {
        assert(is_parent_link(v@.subrange(start as int, end as int)));
        return None;
    }
    Some((start, end))
}

/// Where the extension of the name in `v[start..end)` begins, if the name
/// has one: the index after its last `.`.
pub fn find_extension(v: &Vec<char>, start: usize, end: usize) -> (r: Option<usize>)
    requires
        start <= end <= v.len(),
    ensures
        match r {
            Some(from) => {
                &&& start < from <= end
                &&& has_extension(v@.subrange(start as int, end as int))
                &&& from - start == after_last_dot(v@.subrange(start as int, end as int))
            },
            None => !has_extension(v@.subrange(start as int, end as int)),
        },
{
    let ghost name = v@.subrange(start as int, end as int);
    let from = find_piece_start(v, '.', start, end);
    proof {
        lemma_piece_start_shift(v@, '.', start as int, end as int);
    }
    if from - start <= 1 {
        return None;
    }
    if end - start == 2 && v[start] == '.' && v[start + 1] == '.' {
        assert(is_parent_link(name));
        return None;
    }
    assert(!is_parent_link(name)) by {
        if is_parent_link(name) {
            assert(name[0] == v@[start as int]);
            assert(name[1] == v@[start + 1]);
        }
    }
    Some(from)
}

/// The last piece of a range, seen from the start of the range.
pub proof fn lemma_piece_start_shift(s: Seq<char>, sep: char, lo: int, hi: int)
    requires
        0 <= lo <= hi <= s.len(),
    ensures
        piece_start(s.subrange(lo, hi), sep, 0, hi - lo) == piece_start(s, sep, lo, hi) - lo,
    decreases hi - lo,
{
    let t = s.subrange(lo, hi);
    if hi > lo {
        assert(t[hi - lo - 1] == s[hi - 1]);
        if s[hi - 1] != sep {
            lemma_piece_start_shift(s, sep, lo, hi - 1);
            lemma_piece_start_same(t, s.subrange(lo, hi - 1), sep, 0, hi - lo - 1);
        }
    }
}

} // verus!
