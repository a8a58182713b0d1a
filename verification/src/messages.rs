//! The messages of the command line.
//!
//! Paths and labels are shown in colour by the `colored` crate, which
//! decides from its surroundings whether it colours at all. Each message is
//! therefore built in two steps: the parts are shown, and the shown parts
//! are put into the sentence.

use crate::structs::File;
use crate::text::{decimal, decimal_string};
use colored::Colorize;
use vstd::prelude::*;
use vstd::string::*;

verus! {

/// The character that starts a colour sequence.
pub const ESCAPE: char = '\u{1b}';

/// The sequence that switches to the colour with the digit `code`.
pub open spec fn colour_on(code: char) -> Seq<char> {
    seq![ESCAPE, '[', '3', code, 'm']
}

/// The sequence that switches colours off.
pub open spec fn colour_off() -> Seq<char> {
    seq![ESCAPE, '[', '0', 'm']
}

/// Whether `text` begins with the sequence that switches colours off.
pub open spec fn starts_with_colour_off(text: Seq<char>) -> bool {
    text.len() >= 4 && text[0] == ESCAPE && text[1] == '[' && text[2] == '0' && text[3] == 'm'
}

/// `text` with the colour switched on again behind every sequence in it
/// that switches colours off, so that all of it is shown in the colour.
pub open spec fn recoloured(text: Seq<char>, code: char) -> Seq<char>
    decreases text.len(),
{
    if text.len() == 0 {
        Seq::empty()
    } else if starts_with_colour_off(text) {
        colour_off() + colour_on(code) + recoloured(text.subrange(4, text.len() as int), code)
    } else {
        seq![text[0]] + recoloured(text.subrange(1, text.len() as int), code)
    }
}

/// `text` between the sequence that switches to the colour with the digit
/// `code` and the sequence that switches colours off.
pub open spec fn wrapped(text: Seq<char>, code: char) -> Seq<char> {
    colour_on(code) + text + colour_off()
}

/// `text` painted in the colour with the digit `code`: wrapped in the two
/// sequences, with the colour kept on throughout.
pub open spec fn painted(text: Seq<char>, code: char) -> Seq<char> {
    wrapped(recoloured(text, code), code)
}

/// Whether `shown` is a way to show `text` in the colour with the digit
/// `code`: either as it is, where colours are not written, or painted.
pub open spec fn shows(shown: Seq<char>, text: Seq<char>, code: char) -> bool {
    shown == text || shown == painted(text, code)
}

/// A text without the character that starts a colour sequence is painted
/// by wrapping it as it is.
pub proof fn lemma_painted_plain(text: Seq<char>, code: char)
    requires
        !text.contains(ESCAPE),
    ensures
        recoloured(text, code) == text,
        painted(text, code) == wrapped(text, code),
    decreases text.len(),
{
    if text.len() > 0 {
        let rest = text.subrange(1, text.len() as int);
        assert(text[0] != ESCAPE);
        assert forall|k: int| 0 <= k < rest.len() implies rest[k] != ESCAPE by {
            assert(rest[k] == text[k + 1]);
        }
        assert(!rest.contains(ESCAPE));
        lemma_painted_plain(rest, code);
        assert(seq![text[0]] + rest =~= text);
    } else {
        assert(text =~= Seq::<char>::empty());
    }
}

/// `text` in green, by `colored`'s `Colorize::green` and the `Display` of
/// its `ColoredString`. Whether colours are written depends on the
/// surroundings of the process, so both outcomes are allowed for: the text
/// as it is, or the text between the two sequences, with the colour
/// switched on again behind every sequence in it that switches colours off.
#[verifier::external_body]
fn green(text: &str) -> (r: String)
    ensures
        shows(r@, text@, '2'),
{
    text.green().to_string()
}

/// `text` in red, by `colored`'s `Colorize::red` and the `Display` of its
/// `ColoredString`. Whether colours are written depends on the
/// surroundings of the process, so both outcomes are allowed for: the text
/// as it is, or the text between the two sequences, with the colour
/// switched on again behind every sequence in it that switches colours off.
#[verifier::external_body]
fn red(text: &str) -> (r: String)
    ensures
        shows(r@, text@, '1'),
{
    text.red().to_string()
}

/// The sentence that announces one move of a dry run.
pub open spec fn dry_run_text(from: Seq<char>, to: Seq<char>) -> Seq<char> {
    "Sorting "@ + from + " to "@ + to + "."@
}

/// Whether `line` announces the move from `source` to `destination`, with
/// the old path shown in green and the new one in red.
pub open spec fn is_dry_run_line(
    line: Seq<char>,
    source: Seq<char>,
    destination: Seq<char>,
) -> bool {
    exists|from: Seq<char>, to: Seq<char>|
        #![trigger dry_run_text(from, to)]
        {
            &&& shows(from, source, '2')
            &&& shows(to, destination, '1')
            &&& line == dry_run_text(from, to)
        }
}

/// The sentence that reports a path that is not there.
pub open spec fn missing_path_text(label: Seq<char>, path: Seq<char>) -> Seq<char> {
    label + " no such file or directory \""@ + path
        + "\". Try sortery --help for more info."@
}

/// The sentence that reports a move that failed.
pub open spec fn move_failed_text(label: Seq<char>, source: Seq<char>, target: Seq<char>) -> Seq<
    char,
> {
    label + " failed to move "@ + source + " to "@ + target + "."@
}

/// The sentence that closes a sort of `count` files.
pub open spec fn sorted_summary_text(count: nat, target: Seq<char>) -> Seq<char> {
    "Successfully sorted "@ + decimal(count) + " items by date into "@ + target + "."@
}

/// The sentence that closes an extraction of `count` entries.
pub open spec fn moved_summary_text(count: nat, target: Seq<char>) -> Seq<char> {
    "Successfully moved "@ + decimal(count) + " items to "@ + target + "."@
}

/// The sentence that announces one move of a dry run, from the two paths
/// as they are to be shown.
pub fn dry_run_line(from: &str, to: &str) -> (r: String)
    ensures
        r@ == dry_run_text(from@, to@),
{
    let mut r = "Sorting ".to_owned();
    r.append(from);
    r.append(" to ");
    r.append(to);
    r.append(".");
    r
}

/// The sentence that reports a path that is not there, from the label and
/// the path as they are to be shown.
pub fn missing_path_line(label: &str, path: &str) -> (r: String)
    ensures
        r@ == missing_path_text(label@, path@),
{
    let mut r = label.to_owned();
    r.append(" no such file or directory \"");
    r.append(path);
    r.append("\". Try sortery --help for more info.");
    r
}

/// The sentence that reports a move that failed, from the label and the
/// paths as they are to be shown.
pub fn move_failed_line(label: &str, source: &str, target: &str) -> (r: String)
    ensures
        r@ == move_failed_text(label@, source@, target@),
{
    let mut r = label.to_owned();
    r.append(" failed to move ");
    r.append(source);
    r.append(" to ");
    r.append(target);
    r.append(".");
    r
}

/// The sentence that closes a sort of `count` files into `target`.
pub fn sorted_summary_line(count: usize, target: &File) -> (r: String)
    ensures
        r@ == sorted_summary_text(count as nat, target@),
{
    let mut r = "Successfully sorted ".to_owned();
    r.append(decimal_string(count as u128).as_str());
    r.append(" items by date into ");
    r.append(target.path.as_str());
    r.append(".");
    r
}

/// The sentence that closes an extraction of `count` entries into
/// `target`.
pub fn moved_summary_line(count: usize, target: &File) -> (r: String)
    ensures
        r@ == moved_summary_text(count as nat, target@),
{
    let mut r = "Successfully moved ".to_owned();
    r.append(decimal_string(count as u128).as_str());
    r.append(" items to ");
    r.append(target.path.as_str());
    r.append(".");
    r
}

/// The announcement of one move of a dry run.
pub struct DryRunMessage {
    pub from_file: File,
    pub to_file: File,
}

impl DryRunMessage {
    /// The announcement as a line for the terminal: the old path in green,
    /// the new one in red.
    pub fn to_string(&self) -> (r: String)
        ensures
            is_dry_run_line(r@, self.from_file@, self.to_file@),
    {
        let from = green(self.from_file.path.as_str());
        let to = red(self.to_file.path.as_str());
        let r = dry_run_line(from.as_str(), to.as_str());
        assert(r@ == dry_run_text(from@, to@));
        r
    }
}

/// The lines of a dry run: one announcement for each file of the plan and
/// its destination, in the order of the plan.
pub fn dry_run_lines(sources: &Vec<File>, destinations: &Vec<File>) -> (lines: Vec<String>)
    ensures
        lines.len() == (if sources.len() <= destinations.len() {
            sources.len()
        } else {
            destinations.len()
        }),
        forall|i: int|
            0 <= i < lines.len() ==> is_dry_run_line(
                (#[trigger] lines[i])@,
                sources[i]@,
                destinations[i]@,
            ),
{
    let mut lines: Vec<String> = Vec::new();
    let mut i: usize = 0;
    while i < sources.len() && i < destinations.len()
        invariant
            i <= sources.len(),
            i <= destinations.len(),
            lines.len() == i,
            forall|k: int|
                0 <= k < i ==> is_dry_run_line(
                    (#[trigger] lines[k])@,
                    sources[k]@,
                    destinations[k]@,
                ),
        decreases sources.len() - i,
    {
        let message = DryRunMessage {
            from_file: sources[i].copy(),
            to_file: destinations[i].copy(),
        };
        let line = message.to_string();
        lines.push(line);
        i += 1;
    }
    lines
}

/// The report of a path that is not there.
pub struct PathDoesNotExistError<'a> {
    pub path: &'a File,
}

impl<'a> PathDoesNotExistError<'a> {
    /// The report as a line for the terminal, behind a red `Error:`.
    pub fn to_string(&self) -> (r: String)
        ensures
            r@ == missing_path_text("Error:"@, self.path@) || r@ == missing_path_text(
                wrapped("Error:"@, '1'),
                self.path@,
            ),
    {
        proof {
            reveal_strlit("Error:");
            assert(!"Error:"@.contains(ESCAPE));
            lemma_painted_plain("Error:"@, '1');
        }
        let label = red("Error:");
        missing_path_line(label.as_str(), self.path.path.as_str())
    }
}

/// The report of a move that failed.
pub struct PathMoveFailedError<'a> {
    pub source: &'a File,
    pub target: &'a File,
}

impl<'a> PathMoveFailedError<'a> {
    /// The report as a line for the terminal, behind a red `Error:`.
    pub fn to_string(&self) -> (r: String)
        ensures
            r@ == move_failed_text("Error:"@, self.source@, self.target@) || r@
                == move_failed_text(wrapped("Error:"@, '1'), self.source@, self.target@),
    {
        proof {
            reveal_strlit("Error:");
            assert(!"Error:"@.contains(ESCAPE));
            lemma_painted_plain("Error:"@, '1');
        }
        let label = red("Error:");
        move_failed_line(label.as_str(), self.source.path.as_str(), self.target.path.as_str())
    }
}

} // verus!
