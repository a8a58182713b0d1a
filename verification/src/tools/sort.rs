//! Sorting by date: which files take part, where each one goes, and how
//! destinations that coincide are told apart.

use crate::clock::{
    format_time, formatted_time, is_clock_offset, is_moment, local_offset, month_dir_pattern,
    LocalStamp,
};
use crate::collision::{
    is_first_free, first_free, lemma_first_free, lemma_resolve_all_distinct, pairwise_distinct,
    resolve_all, resolved, sequential_candidate, sequential_name, suffixed_name,
};
use crate::paths::{extension_text, join, stem_text};
use crate::structs::{
    contains_file, file_texts, is_taken, join_text, texts_of, ConfigData, File,
};
use crate::text::{
    decimal_string, has_piece, join_with, lacks, lemma_split_of_join, split_on,
};
use vstd::prelude::*;
use vstd::string::*;

verus! {

/// The character between the extensions of a filter.
pub const TYPE_SEPARATOR: char = '-';

/// Whether `ext` is one of the extensions that the filter text `types`
/// lists, separated by `-`. The empty text lists the empty extension.
pub open spec fn matches_type(ext: Seq<char>, types: Seq<char>) -> bool {
    split_on(types, TYPE_SEPARATOR).contains(ext)
}

/// Whether a file with the extension `ext` takes part in a sort. Where the
/// `only` filter is enabled it decides alone: the file takes part when the
/// filter lists its extension. Otherwise the file takes part unless the
/// `exclude` filter lists its extension.
pub open spec fn sortable(
    ext: Seq<char>,
    exclude: Seq<char>,
    only: Seq<char>,
    only_enabled: bool,
) -> bool {
    if only_enabled {
        matches_type(ext, only)
    } else {
        !matches_type(ext, exclude)
    }
}

/// Whether the extension of `path` is one of those that `types` lists.
pub fn is_type(path: &File, types: &str) -> (r: bool)
    ensures
        r == matches_type(extension_text(path@), types@),
{
    let ext = path.extension();
    has_piece(types, TYPE_SEPARATOR, ext.as_str())
}

/// Whether `path` takes part in a sort under the two filters. Each filter
/// is a text of extensions and a flag that enables it; the flag of
/// `exclude_type` is not consulted.
pub fn is_sortable(path: &File, exclude_type: &(&str, bool), only_type: &(&str, bool)) -> (r: bool)
    ensures
        r == sortable(extension_text(path@), exclude_type.0@, only_type.0@, only_type.1),
        only_type.1 && matches_type(extension_text(path@), only_type.0@) ==> r,
{
    if is_type(path, only_type.0) && only_type.1 {
        true
    } else if !is_type(path, exclude_type.0) && !only_type.1 {
        true
    } else {
        false
    }
}

/// An enabled `only` filter that lists the extension of a file makes the
/// file take part, whatever the `exclude` filter lists.
pub proof fn lemma_only_overrides_exclude(
    ext: Seq<char>,
    exclude: Seq<char>,
    other_exclude: Seq<char>,
    only: Seq<char>,
)
    requires
        matches_type(ext, only),
    ensures
        sortable(ext, exclude, only, true),
        sortable(ext, exclude, only, true) == sortable(ext, other_exclude, only, true),
{
}

/// With the `only` filter disabled, every file takes part whose extension
/// the `exclude` filter does not list.
pub proof fn lemma_unfiltered_is_sortable(ext: Seq<char>, exclude: Seq<char>, only: Seq<char>)
    requires
        !matches_type(ext, exclude),
    ensures
        sortable(ext, exclude, only, false),
{
}

/// The empty filter text lists the empty extension and no other. So with
/// both filters left empty and disabled, every file with an extension takes
/// part.
pub proof fn lemma_empty_filter(ext: Seq<char>, only: Seq<char>)
    ensures
        matches_type(ext, Seq::empty()) <==> ext.len() == 0,
        ext.len() > 0 ==> sortable(ext, Seq::empty(), only, false),
{
    let pieces = split_on(Seq::<char>::empty(), TYPE_SEPARATOR);
    let none = Seq::<char>::empty();
    assert(pieces =~= seq![none.subrange(0, 0)]);
    assert(none.subrange(0, 0) =~= none);
    if ext.len() == 0 {
        assert(ext =~= none);
        assert(pieces[0] == ext);
    }
    if pieces.contains(ext) {
        let i = choose|i: int| 0 <= i < pieces.len() && pieces[i] == ext;
        assert(pieces[i] == none);
    }
}

/// The next name of the series of `path` that none of the files in `vec`
/// has: `stem_2.ext` if that is free, else `stem_3.ext`, and so on, in the
/// directory of `path`.
pub fn get_sequential_name(path: &File, vec: &Vec<File>) -> (r: File)
    ensures
        r@ == sequential_name(path@, file_texts(vec@)),
        is_first_free(path@, file_texts(vec@), first_free(path@, file_texts(vec@))),
        !is_taken(file_texts(vec@), r@),
{
    let stem = path.file_stem();
    let ext = path.extension();
    let ghost assigned = file_texts(vec@);
    let ghost free = first_free(path@, assigned);
    proof {
        lemma_first_free(path@, assigned);
        reveal_strlit("_");
        reveal_strlit(".");
    }
    let mut num: u128 = 2;
    loop
        invariant
            assigned == file_texts(vec@),
            free == first_free(path@, assigned),
            is_first_free(path@, assigned, free),
            free <= assigned.len() + 2,
            assigned.len() == vec.len(),
            2 <= num <= free,
            stem@ == stem_text(path@),
            ext@ == extension_text(path@),
            "_"@ == seq!['_'],
            "."@ == seq!['.'],
            forall|n: nat| is_first_free(path@, assigned, n) ==> n == free,
            forall|k: nat|
                2 <= k < num ==> is_taken(assigned, #[trigger] sequential_candidate(path@, k)),
        decreases free - num,
    {
        let mut name = stem.clone();
        name.append("_");
        name.append(decimal_string(num).as_str());
        name.append(".");
        name.append(ext.as_str());
        assert(name@ =~= suffixed_name(path@, num as nat));
        let candidate = path.with_file_name(name.as_str());
        assert(candidate@ == sequential_candidate(path@, num as nat));
        if !contains_file(vec, &candidate) {
            assert(is_first_free(path@, assigned, num as nat));
            return candidate;
        }
        num += 1;
    }
}

/// Where a file goes whose planned destination is `candidate`, given the
/// destinations `assigned` so far: to `candidate` itself if none of them is
/// the same path, else to the next free name of its series.
pub fn resolve(candidate: File, assigned: &Vec<File>) -> (r: File)
    ensures
        r@ == resolved(candidate@, file_texts(assigned@)),
        !is_taken(file_texts(assigned@), r@),
{
    if contains_file(assigned, &candidate) {
        get_sequential_name(&candidate, assigned)
    } else {
        candidate
    }
}

/// Why a sort could not be planned.
#[derive(Debug, Clone, Copy, PartialEq, Eq, Structural)]
pub enum SortError {
    /// The file system did not give the timestamp that the sort goes by.
    MetadataUnavailable,
    /// The timestamp is a moment that cannot be shown on a clock.
    TimeOutOfRange,
    /// The moment could not be written under the date format.
    DateFormatFailed,
}

/// Which of a file's timestamps a sort goes by.
#[derive(Debug, Clone, Copy, PartialEq, Eq, Structural)]
pub enum TimestampSelector {
    Created,
    Modified,
    Accessed,
}

/// The selector that a date-type code stands for: `m` for the time of the
/// last change, `a` for the time of the last access, and anything else for
/// the time of creation.
pub open spec fn selector_of(code: Seq<char>) -> TimestampSelector {
    if code.len() == 1 && code[0] == 'm' {
        TimestampSelector::Modified
    } else if code.len() == 1 && code[0] == 'a' {
        TimestampSelector::Accessed
    } else {
        TimestampSelector::Created
    }
}

impl TimestampSelector {
    /// The selector that a date-type code stands for.
    pub fn from_code(code: &str) -> (r: TimestampSelector)
        ensures
            r == selector_of(code@),
    {
        if code.unicode_len() == 1 {
            let c = code.get_char(0);
            if c == 'm' {
                return TimestampSelector::Modified;
            }
            if c == 'a' {
                return TimestampSelector::Accessed;
            }
        }
        TimestampSelector::Created
    }
}

/// What a walk through the source directory found of one entry: its path,
/// whether it is a directory, and its timestamps in seconds since the Unix
/// epoch, as far as the file system gives them.
#[derive(Debug)]
pub struct SourceEntry {
    pub file: File,
    pub is_dir: bool,
    pub created: Option<i64>,
    pub modified: Option<i64>,
    pub accessed: Option<i64>,
}

impl SourceEntry {
    /// The timestamp that the selector picks.
    pub open spec fn time_at(self, selector: TimestampSelector) -> Option<i64> {
        match selector {
            TimestampSelector::Created => self.created,
            TimestampSelector::Modified => self.modified,
            TimestampSelector::Accessed => self.accessed,
        }
    }

    /// Whether the entry has the timestamp that the selector picks, and a
    /// clock can show it.
    pub open spec fn has_moment(self, selector: TimestampSelector) -> bool {
        match self.time_at(selector) {
            Some(secs) => is_moment(secs as int),
            None => false,
        }
    }

    /// The timestamp that the selector picks.
    pub fn timestamp(&self, selector: TimestampSelector) -> (r: Option<i64>)
        ensures
            r == self.time_at(selector),
    {
        match selector {
            TimestampSelector::Created => self.created,
            TimestampSelector::Modified => self.modified,
            TimestampSelector::Accessed => self.accessed,
        }
    }
}

/// The moment that a sort goes by for `entry`, on the local clock.
/// `date_type` is one of `"c"` (created), `"a"` (accessed) and `"m"`
/// (modified). The offset of the local clock comes from the machine. An
/// entry without the timestamp gives `MetadataUnavailable`, and a timestamp
/// that no clock can show gives `TimeOutOfRange`.
pub fn get_datetime(entry: &SourceEntry, date_type: &str) -> (r: Result<LocalStamp, SortError>)
    ensures
        match entry.time_at(selector_of(date_type@)) {
            None => r == Err::<LocalStamp, SortError>(SortError::MetadataUnavailable),
            Some(secs) => if is_moment(secs as int) {
                &&& r matches Ok(stamp)
                &&& stamp.secs == secs
                &&& is_clock_offset(stamp.offset as int)
            } else {
                r == Err::<LocalStamp, SortError>(SortError::TimeOutOfRange)
            },
        },
{
    match entry.timestamp(TimestampSelector::from_code(date_type)) {
        None => Err(SortError::MetadataUnavailable),
        Some(secs) => stamp_of(secs, local_offset(secs)),
    }
}

/// The moment `secs` with the offset that the local clock was found to
/// have, or the error where none was found.
pub fn stamp_of(secs: i64, offset: Option<i32>) -> (r: Result<LocalStamp, SortError>)
    ensures
        r == (match offset {
            Some(o) => Ok::<LocalStamp, SortError>(LocalStamp { secs: secs, offset: o }),
            None => Err::<LocalStamp, SortError>(SortError::TimeOutOfRange),
        }),
{
    match offset {
        Some(o) => Ok(LocalStamp { secs: secs, offset: o }),
        None => Err(SortError::TimeOutOfRange),
    }
}

/// The name of a sorted file: the written date, then the old stem behind a
/// space where the name is preserved, then a dot and the extension. The
/// dot is written even where the extension is empty.
pub open spec fn planned_name(
    base: Seq<char>,
    stem: Seq<char>,
    ext: Seq<char>,
    preserve: bool,
) -> Seq<char> {
    base + (if preserve {
        seq![' '] + stem
    } else {
        Seq::empty()
    }) + seq!['.'] + ext
}

/// Where a file goes before collisions are resolved: into the directory
/// `dir` under `target`, under the name made of `base` and the file's own
/// stem and extension.
pub open spec fn destination_text(
    target: Seq<char>,
    dir: Seq<char>,
    base: Seq<char>,
    file: Seq<char>,
    preserve: bool,
) -> Seq<char> {
    join(join(target, dir), planned_name(base, stem_text(file), extension_text(file), preserve))
}

/// Where a file with the timestamp `stamp` goes before collisions are
/// resolved: into the `YYYY/MM/` directory of the moment, named by the
/// moment written under `format`. `None` where the moment cannot be
/// written.
pub open spec fn planned_destination(
    target: Seq<char>,
    file: Seq<char>,
    stamp: LocalStamp,
    format: Seq<char>,
    preserve: bool,
) -> Option<Seq<char>> {
    match (
        formatted_time(stamp.secs as int, stamp.offset as int, month_dir_pattern()),
        formatted_time(stamp.secs as int, stamp.offset as int, format),
    ) {
        (Some(dir), Some(base)) => Some(destination_text(target, dir, base, file, preserve)),
        _ => None,
    }
}

/// The destination of `old_file` under `target`, from the written
/// directory `dir` and the written date `base`.
pub fn destination_from_parts(
    target: &File,
    dir: &str,
    base: &str,
    old_file: &File,
    preserve_name: bool,
) -> (r: File)
    ensures
        r@ == destination_text(target@, dir@, base@, old_file@, preserve_name),
{
    proof {
        reveal_strlit(" ");
        reveal_strlit(".");
    }
    let mut name = base.to_owned();
    if preserve_name {
        name.append(" ");
        name.append(old_file.file_stem().as_str());
        assert(name@ =~= base@ + (seq![' '] + stem_text(old_file@)));
    } else {
        assert(name@ =~= base@ + Seq::<char>::empty());
    }
    name.append(".");
    name.append(old_file.extension().as_str());
    assert(name@ =~= planned_name(
        base@,
        stem_text(old_file@),
        extension_text(old_file@),
        preserve_name,
    ));
    let folder = join_text(target.path.as_str(), dir);
    File { path: join_text(folder.as_str(), name.as_str()) }
}

/// The destination of `old_file` in the `YYYY/MM/` tree under `target`:
/// the moment `ctime` gives the directories and, written under
/// `date_format`, the name. With `preserve_name` the old stem follows the
/// date after a space.
pub fn get_new_date_path(
    target: &File,
    old_file: &File,
    date_format: &str,
    ctime: &LocalStamp,
    preserve_name: bool,
) -> (r: Result<File, SortError>)
    ensures
        match planned_destination(target@, old_file@, *ctime, date_format@, preserve_name) {
            Some(destination) => r matches Ok(file) && file@ == destination,
            None => r matches Err(e) && e == SortError::DateFormatFailed,
        },
{
    proof {
        reveal_strlit("%Y/%m/");
        assert("%Y/%m/"@ =~= month_dir_pattern());
    }
    let dir = format_time(ctime.secs, ctime.offset, "%Y/%m/");
    let base = format_time(ctime.secs, ctime.offset, date_format);
    match (dir, base) {
        (Some(d), Some(b)) => Ok(
            destination_from_parts(target, d.as_str(), b.as_str(), old_file, preserve_name),
        ),
        _ => Err(SortError::DateFormatFailed),
    }
}

/// Whether an entry of the walk takes part in a sort: it is no directory
/// and passes the filters.
pub open spec fn takes_part(
    entry: SourceEntry,
    exclude: Seq<char>,
    only: Seq<char>,
    only_enabled: bool,
) -> bool {
    !entry.is_dir && sortable(extension_text(entry.file@), exclude, only, only_enabled)
}

/// The entries among the first `n` that take part in a sort, in the order
/// of the walk.
pub open spec fn eligible_upto(
    entries: Seq<SourceEntry>,
    n: int,
    exclude: Seq<char>,
    only: Seq<char>,
    only_enabled: bool,
) -> Seq<SourceEntry>
    decreases n,
{
    if n <= 0 {
        Seq::empty()
    } else {
        let before = eligible_upto(entries, n - 1, exclude, only, only_enabled);
        if takes_part(entries[n - 1], exclude, only, only_enabled) {
            before.push(entries[n - 1])
        } else {
            before
        }
    }
}

/// The entries that take part in a sort, in the order of the walk.
pub open spec fn eligible(
    entries: Seq<SourceEntry>,
    exclude: Seq<char>,
    only: Seq<char>,
    only_enabled: bool,
) -> Seq<SourceEntry> {
    eligible_upto(entries, entries.len() as int, exclude, only, only_enabled)
}

/// The paths of a list of entries.
pub open spec fn entry_files(entries: Seq<SourceEntry>) -> Seq<Seq<char>> {
    entries.map_values(|e: SourceEntry| e.file@)
}

/// Whether `planned` holds, for each of the `chosen` entries in turn, its
/// destination before collisions are resolved, for the moment that
/// `stamps` holds of it: the timestamp that the date type selects, which a
/// clock can show, on a clock with some offset.
pub open spec fn is_plan_for(
    chosen: Seq<SourceEntry>,
    stamps: Seq<LocalStamp>,
    planned: Seq<Seq<char>>,
    target: Seq<char>,
    format: Seq<char>,
    date_type: Seq<char>,
    preserve: bool,
) -> bool {
    &&& stamps.len() == chosen.len()
    &&& planned.len() == chosen.len()
    &&& forall|i: int|
        0 <= i < chosen.len() ==> {
            &&& chosen[i].time_at(selector_of(date_type)) == Some((#[trigger] stamps[i]).secs)
            &&& is_moment(stamps[i].secs as int)
            &&& is_clock_offset(stamps[i].offset as int)
            &&& planned_destination(target, chosen[i].file@, stamps[i], format, preserve) == Some(
                planned[i],
            )
        }
}

/// Whether planning fails with the error `e` at the file at position `k`
/// of the `chosen` files: every file before it has a timestamp that a
/// clock can show, and the file itself
/// - lacks the timestamp to sort by, for `MetadataUnavailable`;
/// - has a timestamp that no clock can show, for `TimeOutOfRange`;
/// - has a timestamp which, on a clock with some offset, cannot be written
///   under the format, for `DateFormatFailed`.
pub open spec fn fails_at(
    chosen: Seq<SourceEntry>,
    k: int,
    e: SortError,
    target: Seq<char>,
    format: Seq<char>,
    date_type: Seq<char>,
    preserve: bool,
) -> bool {
    let selector = selector_of(date_type);
    &&& 0 <= k < chosen.len()
    &&& forall|j: int| 0 <= j < k ==> (#[trigger] chosen[j]).has_moment(selector)
    &&& match e {
        SortError::MetadataUnavailable => chosen[k].time_at(selector) is None,
        SortError::TimeOutOfRange => chosen[k].time_at(selector) is Some && !chosen[k].has_moment(
            selector,
        ),
        SortError::DateFormatFailed => exists|stamp: LocalStamp|
            {
                &&& chosen[k].time_at(selector) == Some(stamp.secs)
                &&& is_moment(stamp.secs as int)
                &&& is_clock_offset(stamp.offset as int)
                &&& #[trigger] planned_destination(
                    target,
                    chosen[k].file@,
                    stamp,
                    format,
                    preserve,
                ) is None
            },
    }
}

/// Whether `result` is what planning a sort of `entries` may give: see
/// [`get_sorting_results`].
pub open spec fn is_sorting_result(
    result: Result<(usize, Vec<File>, Vec<File>), SortError>,
    entries: Seq<SourceEntry>,
    target: Seq<char>,
    format: Seq<char>,
    date_type: Seq<char>,
    preserve: bool,
    exclude: Seq<char>,
    only: Seq<char>,
    only_enabled: bool,
) -> bool {
    let chosen = eligible(entries, exclude, only, only_enabled);
    match result {
        Ok((total, sources, destinations)) => {
            &&& total == sources.len()
            &&& total == destinations.len()
            &&& file_texts(sources@) == entry_files(chosen)
            &&& pairwise_distinct(file_texts(destinations@))
            &&& exists|stamps: Seq<LocalStamp>, planned: Seq<Seq<char>>|
                #![trigger resolve_all(planned), stamps.len()]
                {
                    &&& is_plan_for(chosen, stamps, planned, target, format, date_type, preserve)
                    &&& file_texts(destinations@) == resolve_all(planned)
                }
        },
        Err(e) => {
            &&& chosen.len() > 0
            &&& exists|k: int| #[trigger]
                fails_at(chosen, k, e, target, format, date_type, preserve)
            &&& chosen[0].time_at(selector_of(date_type)) is None ==> e
                == SortError::MetadataUnavailable
        },
    }
}

/// Plans a sort of the entries that a walk through the source directory
/// found, in the order of the walk. Directories and the files that the
/// filters leave out are passed over. Every other file gets a destination
/// in the `YYYY/MM/` tree under `target`; a destination that is already
/// assigned is replaced by the next free name of its series.
///
/// The result holds the number of files to sort, their paths, and their
/// destinations: the file at a position of the second list goes to the
/// path at the same position of the third. No two destinations are the
/// same path. Planning fails at the first file that lacks the timestamp
/// to sort by, whose timestamp no clock can show, or whose moment cannot
/// be written under the format, and the error says which; with no file to
/// sort it cannot fail.
pub fn get_sorting_results(
    entries: &Vec<SourceEntry>,
    target: &File,
    date_format: &str,
    date_type: &str,
    preserve_name: &bool,
    exclude_type: (&str, bool),
    only_type: (&str, bool),
) -> (r: Result<(usize, Vec<File>, Vec<File>), SortError>)
    ensures
        is_sorting_result(
            r,
            entries@,
            target@,
            date_format@,
            date_type@,
            *preserve_name,
            exclude_type.0@,
            only_type.0@,
            only_type.1,
        ),
{
    let mut vec_old: Vec<File> = Vec::new();
    let mut vec_new: Vec<File> = Vec::new();
    let ghost exclude = exclude_type.0@;
    let ghost only = only_type.0@;
    let ghost only_enabled = only_type.1;
    let ghost mut stamps: Seq<LocalStamp> = Seq::empty();
    let ghost mut planned: Seq<Seq<char>> = Seq::empty();
    let mut i: usize = 0;
    assert(file_texts(vec_old@) =~= entry_files(
        eligible_upto(entries@, 0, exclude, only, only_enabled),
    ));
    assert(file_texts(vec_new@) =~= resolve_all(planned));
    while i < entries.len()
        invariant
            i <= entries.len(),
            exclude == exclude_type.0@,
            only == only_type.0@,
            only_enabled == only_type.1,
            vec_old.len() == vec_new.len(),
            vec_old.len() == eligible_upto(entries@, i as int, exclude, only, only_enabled).len(),
            file_texts(vec_old@) == entry_files(
                eligible_upto(entries@, i as int, exclude, only, only_enabled),
            ),
            is_plan_for(
                eligible_upto(entries@, i as int, exclude, only, only_enabled),
                stamps,
                planned,
                target@,
                date_format@,
                date_type@,
                *preserve_name,
            ),
            file_texts(vec_new@) == resolve_all(planned),
        decreases entries.len() - i,
    {
        let ghost before = eligible_upto(entries@, i as int, exclude, only, only_enabled);
        let ghost after = eligible_upto(entries@, i + 1, exclude, only, only_enabled);
        let entry = &entries[i];
        if !entry.is_dir && is_sortable(&entry.file, &exclude_type, &only_type) {
            assert(after == before.push(entries@[i as int]));
            let stamp = match get_datetime(entry, date_type) {
                Ok(stamp) => stamp,
                Err(e) => {
                    proof {
                        lemma_fails_here(
                            entries@,
                            i as int,
                            e,
                            stamps,
                            planned,
                            target@,
                            date_format@,
                            date_type@,
                            *preserve_name,
                            exclude,
                            only,
                            only_enabled,
                        );
                    }
                    return Err(e);
                },
            };
            let planned_file = match get_new_date_path(
                target,
                &entry.file,
                date_format,
                &stamp,
                *preserve_name,
            ) {
                Ok(file) => file,
                Err(e) => {
                    proof {
                        assert(planned_destination(
                            target@,
                            entry.file@,
                            stamp,
                            date_format@,
                            *preserve_name,
                        ) is None);
                        lemma_fails_here(
                            entries@,
                            i as int,
                            e,
                            stamps,
                            planned,
                            target@,
                            date_format@,
                            date_type@,
                            *preserve_name,
                            exclude,
                            only,
                            only_enabled,
                        );
                    }
                    return Err(e);
                },
            };
            let ghost candidate = planned_file@;
            let new_file = resolve(planned_file, &vec_new);
            proof {
                let grown = planned.push(candidate);
                assert(grown.drop_last() =~= planned);
                assert(resolve_all(grown) == resolve_all(planned).push(
                    resolved(candidate, resolve_all(planned)),
                ));
                assert(file_texts(vec_new@.push(new_file)) =~= resolve_all(grown));
                let old_texts = file_texts(vec_old@.push(entry.file));
                assert forall|k: int| 0 <= k < old_texts.len() implies old_texts[k] == entry_files(
                    after,
                )[k] by {
                    if k < vec_old.len() {
                        assert(file_texts(vec_old@)[k] == entry_files(before)[k]);
                    }
                }
                assert(old_texts =~= entry_files(after));
                stamps = stamps.push(stamp);
                planned = grown;
            }
            vec_old.push(entry.file.copy());
            vec_new.push(new_file);
            assert(file_texts(vec_old@) =~= entry_files(after));
        } else {
            assert(after == before);
        }
        i += 1;
    }
    proof {
        lemma_resolve_all_distinct(planned);
    }
    Ok((vec_old.len(), vec_old, vec_new))
}

/// Where the files that take part among the first `i` entries are planned
/// for and the entry at position `i` takes part but fails in the way that
/// `e` names, planning the whole walk fails with `e` at that file.
pub proof fn lemma_fails_here(
    entries: Seq<SourceEntry>,
    i: int,
    e: SortError,
    stamps: Seq<LocalStamp>,
    planned: Seq<Seq<char>>,
    target: Seq<char>,
    format: Seq<char>,
    date_type: Seq<char>,
    preserve: bool,
    exclude: Seq<char>,
    only: Seq<char>,
    only_enabled: bool,
)
    requires
        0 <= i < entries.len(),
        takes_part(entries[i], exclude, only, only_enabled),
        is_plan_for(
            eligible_upto(entries, i, exclude, only, only_enabled),
            stamps,
            planned,
            target,
            format,
            date_type,
            preserve,
        ),
        fails_at(seq![entries[i]], 0, e, target, format, date_type, preserve),
    ensures
        eligible(entries, exclude, only, only_enabled).len() > 0,
        fails_at(
            eligible(entries, exclude, only, only_enabled),
            eligible_upto(entries, i, exclude, only, only_enabled).len() as int,
            e,
            target,
            format,
            date_type,
            preserve,
        ),
        eligible(entries, exclude, only, only_enabled)[0].time_at(selector_of(date_type))
            is None ==> e == SortError::MetadataUnavailable,
{
    let before = eligible_upto(entries, i, exclude, only, only_enabled);
    let after = eligible_upto(entries, i + 1, exclude, only, only_enabled);
    let chosen = eligible(entries, exclude, only, only_enabled);
    let k = before.len() as int;
    let selector = selector_of(date_type);
    assert(after == before.push(entries[i]));
    lemma_eligible_grows(entries, i + 1, exclude, only, only_enabled);
    assert(chosen[k] == after[k]);
    assert(seq![entries[i]][0] == chosen[k]);
    assert forall|j: int| 0 <= j < k implies (#[trigger] chosen[j]).has_moment(selector) by {
        assert(chosen[j] == after[j]);
        assert(after[j] == before[j]);
        assert(before[j].time_at(selector) == Some(stamps[j].secs));
    }
    if let SortError::DateFormatFailed = e {
        let stamp = choose|stamp: LocalStamp|
            {
                &&& entries[i].time_at(selector) == Some(stamp.secs)
                &&& is_moment(stamp.secs as int)
                &&& is_clock_offset(stamp.offset as int)
                &&& #[trigger] planned_destination(
                    target,
                    seq![entries[i]][0].file@,
                    stamp,
                    format,
                    preserve,
                ) is None
            };
        assert(planned_destination(target, chosen[k].file@, stamp, format, preserve) is None);
    }
}

/// The files that take part among the first entries still take part, at
/// the same positions, when more entries are looked at.
pub proof fn lemma_eligible_grows(
    entries: Seq<SourceEntry>,
    n: int,
    exclude: Seq<char>,
    only: Seq<char>,
    only_enabled: bool,
)
    requires
        0 <= n <= entries.len(),
    ensures
        eligible_upto(entries, n, exclude, only, only_enabled).len() <= eligible(
            entries,
            exclude,
            only,
            only_enabled,
        ).len(),
        forall|k: int|
            0 <= k < eligible_upto(entries, n, exclude, only, only_enabled).len()
                ==> #[trigger] eligible(entries, exclude, only, only_enabled)[k] == eligible_upto(
                entries,
                n,
                exclude,
                only,
                only_enabled,
            )[k],
    decreases entries.len() - n,
{
    if n < entries.len() {
        lemma_eligible_grows(entries, n + 1, exclude, only, only_enabled);
    }
}

/// Plans a sort with the options of a configuration record: its lists of
/// extensions become the two filters, each enabled where its list is not
/// empty.
pub fn get_sorting_results_from_config(
    data: &ConfigData,
    entries: &Vec<SourceEntry>,
    target: &File,
) -> (r: Result<(usize, Vec<File>, Vec<File>), SortError>)
    ensures
        is_sorting_result(
            r,
            entries@,
            target@,
            data.date_format@,
            data.date_type@,
            data.preserve_name,
            join_with(texts_of(data.exclude_type@), seq![TYPE_SEPARATOR]),
            join_with(texts_of(data.only_type@), seq![TYPE_SEPARATOR]),
            data.only_type@.len() > 0,
        ),
{
    let exclude = data.exclude_filter();
    let only = data.only_filter();
    get_sorting_results(
        entries,
        target,
        data.date_format.as_str(),
        data.date_type.as_str(),
        &data.preserve_name,
        (exclude.0.as_str(), exclude.1),
        (only.0.as_str(), only.1),
    )
}

/// A filter made from a list of extensions lists exactly the extensions of
/// the list, where the list is not empty and no extension in it holds a
/// `-`.
pub proof fn lemma_filter_of_list(ext: Seq<char>, list: Seq<Seq<char>>)
    requires
        list.len() > 0,
        forall|i: int| 0 <= i < list.len() ==> lacks(#[trigger] list[i], TYPE_SEPARATOR),
    ensures
        matches_type(ext, join_with(list, seq![TYPE_SEPARATOR])) <==> list.contains(ext),
{
    lemma_split_of_join(list, TYPE_SEPARATOR);
}

/// The destination of a file is decided by the target, the stem and the
/// extension of the file, the moment with its offset, the format and the
/// flag: files that agree in these get the same destination, however often
/// it is planned.
pub proof fn lemma_destination_is_determined(
    target: Seq<char>,
    file: Seq<char>,
    other: Seq<char>,
    stamp: LocalStamp,
    format: Seq<char>,
    preserve: bool,
)
    requires
        stem_text(file) == stem_text(other),
        extension_text(file) == extension_text(other),
    ensures
        planned_destination(target, file, stamp, format, preserve) == planned_destination(
            target,
            other,
            stamp,
            format,
            preserve,
        ),
{
}

} // verus!
