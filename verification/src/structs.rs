//! The path type that the sorting tools work on, and the configuration
//! record.

use crate::paths::{
    after_last_dot, extension_text, file_name_text, find_body_start, find_extension,
    find_file_name, find_trim_end, join, parent, same_path, same_path_chars, stem_text,
    with_file_name, SEPARATOR,
};
use crate::text::{chars_of, find_piece_start, join_strings, join_with, slice_text};
use std::path::Path;
use std::path::PathBuf;
use vstd::prelude::*;
use vstd::std_specs::cmp::PartialEqSpecImpl;
use vstd::string::*;

verus! {

/// `std::path::Path`, taken as it is: of what is inside it only the text is
/// spoken of, under the name `text_of_path`.
#[verifier::external_type_specification]
#[verifier::external_body]
pub struct ExPath(Path);

/// `std::path::PathBuf`, taken as it is: of what is inside it only the text
/// is spoken of, under the name `text_of_pathbuf`.
#[verifier::external_type_specification]
#[verifier::external_body]
pub struct ExPathBuf(PathBuf);

/// The text that a `std::path::Path` holds, as `Path::to_string_lossy`
/// reads it: its characters, with a replacement character wherever the
/// path holds what is no valid Unicode.
pub uninterp spec fn text_of_path(path: &Path) -> Seq<char>;

/// The text that a `std::path::PathBuf` holds, as `Path::to_string_lossy`
/// reads it: its characters, with a replacement character wherever the
/// path holds what is no valid Unicode.
pub uninterp spec fn text_of_pathbuf(path: PathBuf) -> Seq<char>;

/// The text of a `std::path::Path`, read by `Path::to_string_lossy`. The
/// claim is only that the result is the text which that function reads
/// from the path.
#[verifier::external_body]
fn path_text(path: &Path) -> (text: String)
    ensures
        text@ == text_of_path(path),
{
    path.to_string_lossy().into_owned()
}

/// The text of a `std::path::PathBuf`, read by `Path::to_string_lossy`.
/// The claim is only that the result is the text which that function reads
/// from the path.
#[verifier::external_body]
fn pathbuf_text(path: &PathBuf) -> (text: String)
    ensures
        text@ == text_of_pathbuf(*path),
{
    path.to_string_lossy().into_owned()
}

/// A `std::path::PathBuf` made from a text by `PathBuf::from`. The claim
/// is that the path holds the text it was made from: a text is valid
/// Unicode, so `Path::to_string_lossy` reads it back with nothing replaced.
#[verifier::external_body]
fn text_pathbuf(text: &str) -> (path: PathBuf)
    ensures
        text_of_pathbuf(path) == text@,
{
    PathBuf::from(text)
}

/// Asks the file system, through `std::path::Path::exists`, whether the
/// text names an entry that is there. The answer depends on the disk, so
/// nothing is claimed of it.
#[verifier::external_body]
fn text_exists(text: &str) -> (found: bool) {
    Path::new(text).exists()
}

/// `rel` seen from `base`.
pub fn join_text(base: &str, rel: &str) -> (r: String)
    ensures
        r@ == join(base@, rel@),
{
    let bv = chars_of(base);
    let rv = chars_of(rel);
    if rv.len() > 0 && rv[0] == SEPARATOR {
        rel.to_owned()
    } else {
        let mut r = base.to_owned();
        if bv.len() > 0 && bv[bv.len() - 1] != SEPARATOR {
            proof {
                reveal_strlit("/");
            }
            r.append("/");
            assert(r@ =~= base@.push(SEPARATOR));
        }
        r.append(rel);
        r
    }
}

/// The path without its last name, if it has a parent.
pub fn parent_text(text: &str) -> (r: Option<String>)
    ensures
        match r {
            Some(p) => parent(text@) == Some(p@),
            None => parent(text@) is None,
        },
{
    let v = chars_of(text);
    let lo = find_body_start(&v);
    let end = find_trim_end(&v, lo, v.len());
    if end > lo {
        let start = find_piece_start(&v, SEPARATOR, lo, end);
        let rest = if start > lo {
            start - 1
        } else {
            lo
        };
        let stop = find_trim_end(&v, lo, rest);
        Some(slice_text(text, 0, stop))
    } else if v.len() > 0 && v[0] == '.' && (v.len() == 1 || v[1] == SEPARATOR) {
        Some(String::new())
    } else {
        None
    }
}

/// A path in the file system, held as its text.
///
/// Two `File`s are equal when their texts name the same path, whatever
/// separators and `.` names they are written with.
#[derive(Debug)]
pub struct File {
    pub path: String,
}

impl View for File {
    type V = Seq<char>;

    /// The text of the path.
    open spec fn view(&self) -> Seq<char> {
        self.path@
    }
}

impl PartialEq for File {
    fn eq(&self, other: &File) -> (r: bool) {
        let a = chars_of(self.path.as_str());
        let b = chars_of(other.path.as_str());
        same_path_chars(&a, &b)
    }
}

impl PartialEqSpecImpl for File {
    open spec fn obeys_eq_spec() -> bool {
        true
    }

    open spec fn eq_spec(&self, other: &File) -> bool {
        same_path(self@, other@)
    }
}

impl File {
    /// A `File` with the same text as this one.
    pub fn copy(&self) -> (r: File)
        ensures
            r@ == self@,
    {
        File { path: self.path.clone() }
    }

    /// The `File` of a `std::path::Path`: it has the text that the path
    /// holds. Characters that are no valid Unicode are replaced.
    pub fn from_path(path: &Path) -> (r: File)
        ensures
            r@ == text_of_path(path),
    {
        File { path: path_text(path) }
    }

    /// The `File` of a `std::path::PathBuf`: it has the text that the path
    /// holds. Characters that are no valid Unicode are replaced.
    pub fn from_pathbuf(path: &PathBuf) -> (r: File)
        ensures
            r@ == text_of_pathbuf(*path),
    {
        File { path: pathbuf_text(path) }
    }

    /// Whether the path names an entry that is there in the file system.
    pub fn exists_on_disk(&self) -> (r: bool) {
        text_exists(self.path.as_str())
    }

    /// The extension of the final name, without its dot; empty where the
    /// name has none.
    pub fn extension(&self) -> (r: String)
        ensures
            r@ == extension_text(self@),
    {
        let v = chars_of(self.path.as_str());
        match find_file_name(&v) {
            None => String::new(),
            Some((start, end)) => {
                match find_extension(&v, start, end) {
                    None => String::new(),
                    Some(from) => {
                        let r = slice_text(self.path.as_str(), from, end);
                        proof {
                            let name = v@.subrange(start as int, end as int);
                            assert(r@ =~= name.subrange(
                                after_last_dot(name),
                                name.len() as int,
                            ));
                        }
                        r
                    },
                }
            },
        }
    }

    /// The final name of the path; empty where it has none.
    pub fn file_name(&self) -> (r: String)
        ensures
            r@ == file_name_text(self@),
    {
        let v = chars_of(self.path.as_str());
        match find_file_name(&v) {
            None => String::new(),
            Some((start, end)) => slice_text(self.path.as_str(), start, end),
        }
    }

    /// The final name without its extension; empty where the path has no
    /// final name.
    pub fn file_stem(&self) -> (r: String)
        ensures
            r@ == stem_text(self@),
    {
        let v = chars_of(self.path.as_str());
        match find_file_name(&v) {
            None => String::new(),
            Some((start, end)) => {
                match find_extension(&v, start, end) {
                    None => slice_text(self.path.as_str(), start, end),
                    Some(from) => {
                        let r = slice_text(self.path.as_str(), start, from - 1);
                        proof {
                            let name = v@.subrange(start as int, end as int);
                            assert(r@ =~= name.subrange(0, after_last_dot(name) - 1));
                        }
                        r
                    },
                }
            },
        }
    }

    /// The path `path` seen from this one: the text that `path` holds,
    /// joined to the text of this one.
    pub fn join(&self, path: &Path) -> (r: File)
        ensures
            r@ == join(self@, text_of_path(path)),
    {
        let text = path_text(path);
        self.join_string(&text)
    }

    /// The path `path` seen from this one.
    pub fn join_string(&self, path: &String) -> (r: File)
        ensures
            r@ == join(self@, path@),
    {
        File { path: join_text(self.path.as_str(), path.as_str()) }
    }

    /// The `File` with the text `from`.
    pub fn new(from: &str) -> (r: File)
        ensures
            r@ == from@,
    {
        File { path: from.to_owned() }
    }

    /// The path as a `std::path::PathBuf`: one that holds the text of this
    /// path.
    pub fn to_path_buf(&self) -> (r: PathBuf)
        ensures
            text_of_pathbuf(r) == self@,
    {
        text_pathbuf(self.path.as_str())
    }

    /// The text of the path.
    pub fn to_string(&self) -> (r: String)
        ensures
            r@ == self@,
    {
        self.path.clone()
    }

    /// The directory that holds the final name, where the path has a
    /// parent.
    pub fn parent(&self) -> (r: Option<File>)
        ensures
            match r {
                Some(dir) => parent(self@) == Some(dir@),
                None => parent(self@) is None,
            },
    {
        match parent_text(self.path.as_str()) {
            Some(text) => Some(File { path: text }),
            None => None,
        }
    }

    /// The path with its final name replaced by `name`.
    pub fn with_file_name(&self, name: &str) -> (r: File)
        ensures
            r@ == with_file_name(self@, name@),
    {
        let v = chars_of(self.path.as_str());
        match find_file_name(&v) {
            Some(_) => {
                match parent_text(self.path.as_str()) {
                    Some(dir) => File { path: join_text(dir.as_str(), name) },
                    None => File { path: join_text(self.path.as_str(), name) },
                }
            },
            None => File { path: join_text(self.path.as_str(), name) },
        }
    }
}

/// The texts of a list of files.
pub open spec fn file_texts(files: Seq<File>) -> Seq<Seq<char>> {
    files.map_values(|f: File| f@)
}

/// Whether one of the `assigned` texts names the same path as `path`.
pub open spec fn is_taken(assigned: Seq<Seq<char>>, path: Seq<char>) -> bool {
    exists|i: int| 0 <= i < assigned.len() && same_path(#[trigger] assigned[i], path)
}

/// Whether one of `files` names the same path as `file`.
pub fn contains_file(files: &Vec<File>, file: &File) -> (r: bool)
    ensures
        r == is_taken(file_texts(files@), file@),
{
    let ghost texts = file_texts(files@);
    let mut i: usize = 0;
    while i < files.len()
        invariant
            i <= files.len(),
            texts == file_texts(files@),
            forall|j: int| 0 <= j < i ==> !same_path(#[trigger] texts[j], file@),
        decreases files.len() - i,
    {
        if files[i] == *file {
            assert(same_path(texts[i as int], file@));
            return true;
        }
        i += 1;
    }
    false
}

/// The options of a sort, as a configuration file gives them.
#[derive(Debug)]
pub struct ConfigData {
    pub date_format: String,
    pub date_type: String,
    pub exclude_type: Vec<String>,
    pub only_type: Vec<String>,
    pub preserve_name: bool,
}

/// The texts that a list of strings holds.
pub open spec fn texts_of(list: Seq<String>) -> Seq<Seq<char>> {
    list.map_values(|s: String| s@)
}

impl ConfigData {
    /// The filter of extensions to leave out: the listed extensions joined
    /// by `-`, and whether any was listed.
    pub fn exclude_filter(&self) -> (r: (String, bool))
        ensures
            r.0@ == join_with(texts_of(self.exclude_type@), seq!['-']),
            r.1 == (self.exclude_type@.len() > 0),
    {
        proof {
            reveal_strlit("-");
            assert("-"@ =~= seq!['-']);
        }
        (join_strings(&self.exclude_type, "-"), self.exclude_type.len() > 0)
    }

    /// The filter of extensions to sort alone: the listed extensions joined
    /// by `-`, and whether any was listed.
    pub fn only_filter(&self) -> (r: (String, bool))
        ensures
            r.0@ == join_with(texts_of(self.only_type@), seq!['-']),
            r.1 == (self.only_type@.len() > 0),
    {
        proof {
            reveal_strlit("-");
            assert("-"@ =~= seq!['-']);
        }
        (join_strings(&self.only_type, "-"), self.only_type.len() > 0)
    }
}

} // verus!
