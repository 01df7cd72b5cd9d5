//! The regular expressions of this crate, what they accept, and the calls into
//! the `regex` crate that evaluate them.

use crate::text::{is_blank, is_white};
use vstd::prelude::*;

verus! {

/// One line of the mount table: device, mount point, file system type, options.
pub const MOUNT_LINE: &'static str = "^([^\\s]+)\\s+on\\s+([^\\s]+)\\s+type\\s+(.+)\\s+\\((.+)\\)$";

/// A subvolume that lives at least one directory deep: directory and name.
pub const NESTED_PATH: &'static str = "^(.+)/([^,\\)]+)";

/// A snapshot name: everything before the last dot that a number follows.
pub const NUMBERED_NAME: &'static str = "^(.+)\\.\\d+(?:_\\d+)?";

/// A text of one decimal digit, of any script.
pub const DIGIT: &'static str = "^\\d$";

/// What a match captured: nothing where there is no match, else one text for each
/// group of the pattern that took part, the whole match first.
pub type Groups = Option<Seq<Option<Seq<char>>>>;

/// The characters that have a meaning in a regular expression.
pub open spec fn is_meta(c: char) -> bool {
    ||| c == '\\' || c == '.' || c == '+' || c == '*' || c == '?' || c == '(' || c == ')'
    ||| c == '|' || c == '[' || c == ']' || c == '{' || c == '}' || c == '^' || c == '$'
    ||| c == '#' || c == '&' || c == '-' || c == '~'
}

/// `s` with a backslash before each character that has a meaning in a regular
/// expression.
pub open spec fn escaped(s: Seq<char>) -> Seq<char>
    decreases s.len(),
{
    if s.len() == 0 {
        Seq::empty()
    } else if is_meta(s.last()) {
        escaped(s.drop_last()).push('\\').push(s.last())
    } else {
        escaped(s.drop_last()).push(s.last())
    }
}

/// The pattern of the names of the snapshots with a given prefix: the prefix, a
/// dot, and a run of digits and underscores.
pub open spec fn snapshot_pattern(prefix: Seq<char>) -> Seq<char> {
    "^"@ + escaped(prefix) + "\\.([\\d_]+)$"@
}

/// The length up to which every snapshot prefix gives a pattern that the regular
/// expression engine accepts. No file name comes near it.
pub const PREFIX_LIMIT: usize = 65535;

/// A nonempty text without white space.
pub open spec fn is_solid(s: Seq<char>) -> bool {
    s.len() > 0 && forall|i: int| 0 <= i < s.len() ==> !is_white(#[trigger] s[i])
}

/// A nonempty run of white space.
pub open spec fn is_gap(s: Seq<char>) -> bool {
    s.len() > 0 && is_blank(s)
}

/// A nonempty text without a newline.
pub open spec fn is_one_line(s: Seq<char>) -> bool {
    s.len() > 0 && forall|i: int| 0 <= i < s.len() ==> #[trigger] s[i] != '\n'
}

pub open spec fn is_ascii_digit(c: char) -> bool {
    '0' <= c <= '9'
}

/// A decimal digit: one of the ten of ASCII, or one of another script, which is a
/// character outside ASCII that `DIGIT` accepts.
pub open spec fn is_digit(c: char) -> bool {
    is_ascii_digit(c) || (c >= '\u{80}' && captures_of(DIGIT@, seq![c]) is Some)
}

/// The line that four fields make with the given white space between them.
pub open spec fn mount_line(
    blkdev: Seq<char>,
    mount: Seq<char>,
    fstype: Seq<char>,
    options: Seq<char>,
    gaps: Seq<Seq<char>>,
) -> Seq<char> {
    blkdev + gaps[0] + "on"@ + gaps[1] + mount + gaps[2] + "type"@ + gaps[3] + fstype + gaps[4]
        + "("@ + options + ")"@
}

/// Whether these four fields, with this white space between them, are a way to part
/// `line` that `MOUNT_LINE` allows.
pub open spec fn is_mount_parting(
    line: Seq<char>,
    blkdev: Seq<char>,
    mount: Seq<char>,
    fstype: Seq<char>,
    options: Seq<char>,
    gaps: Seq<Seq<char>>,
) -> bool {
    &&& is_solid(blkdev) && is_solid(mount) && is_one_line(fstype) && is_one_line(options)
    &&& gaps.len() == 5
    &&& forall|i: int| 0 <= i < 5 ==> is_gap(#[trigger] gaps[i])
    &&& line == mount_line(blkdev, mount, fstype, options, gaps)
}

/// Whether a parting of `line` with `lead` characters of white space before the type and
/// `length` characters of type is preferred to all others: the white space before the
/// type is as long as it can be, and then the type is.
pub open spec fn is_preferred_parting(line: Seq<char>, lead: nat, length: nat) -> bool {
    forall|
        blkdev: Seq<char>,
        mount: Seq<char>,
        fstype: Seq<char>,
        options: Seq<char>,
        gaps: Seq<Seq<char>>,
    | #[trigger]
        is_mount_parting(line, blkdev, mount, fstype, options, gaps) ==> gaps[3].len() < lead || (
        gaps[3].len() == lead && fstype.len() <= length)
}

/// What `MOUNT_LINE` captures of a line: of all ways to part it, the fields of the
/// preferred one. All partings have what stands before `type` in common, and what follows
/// the type is given by where the type ends.
pub open spec fn mount_line_match(line: Seq<char>, groups: Groups) -> bool {
    match groups {
        Some(g) => {
            &&& g.len() == 5
            &&& g[1] is Some && g[2] is Some && g[3] is Some && g[4] is Some
            &&& exists|gaps: Seq<Seq<char>>|
                {
                    &&& #[trigger] is_mount_parting(
                        line,
                        g[1]->0,
                        g[2]->0,
                        g[3]->0,
                        g[4]->0,
                        gaps,
                    )
                    &&& is_preferred_parting(line, gaps[3].len(), g[3]->0.len())
                }
        },
        None => forall|
            blkdev: Seq<char>,
            mount: Seq<char>,
            fstype: Seq<char>,
            options: Seq<char>,
            gaps: Seq<Seq<char>>,
        |
            !is_mount_parting(line, blkdev, mount, fstype, options, gaps),
    }
}

/// Whether `path` begins with `dir`, a slash and `name`, and `name` reaches to the
/// first comma or closing bracket after the slash or to the end.
pub open spec fn has_nested_name(path: Seq<char>, dir: Seq<char>, name: Seq<char>) -> bool {
    let end = dir.len() + 1 + name.len();
    &&& is_one_line(dir)
    &&& name.len() > 0
    &&& forall|i: int| 0 <= i < name.len() ==> #[trigger] name[i] != ',' && name[i] != ')'
    &&& end <= path.len()
    &&& path.take(end as int) == dir + seq!['/'] + name
    &&& end < path.len() ==> path[end as int] == ',' || path[end as int] == ')'
}

/// What `NESTED_PATH` captures of a path: of all ways to part it, the one with the
/// longest directory.
pub open spec fn nested_path_match(path: Seq<char>, groups: Groups) -> bool {
    match groups {
        Some(g) => {
            &&& g.len() == 3
            &&& g[1] is Some && g[2] is Some
            &&& has_nested_name(path, g[1]->0, g[2]->0)
            &&& forall|dir: Seq<char>, name: Seq<char>| #[trigger]
                has_nested_name(path, dir, name) ==> dir.len() <= g[1]->0.len()
        },
        None => forall|dir: Seq<char>, name: Seq<char>| !has_nested_name(path, dir, name),
    }
}

/// Whether `name` begins with `prefix`, a dot and one more character.
pub open spec fn has_dotted_prefix(name: Seq<char>, prefix: Seq<char>) -> bool {
    &&& is_one_line(prefix)
    &&& prefix.len() + 1 < name.len()
    &&& name.take((prefix.len() + 1) as int) == prefix.push('.')
}

/// The character of `name` that follows `prefix` and a dot.
pub open spec fn after_dot(name: Seq<char>, prefix: Seq<char>) -> char {
    name[prefix.len() as int + 1]
}

/// What `NUMBERED_NAME` captures of a name: the longest prefix that a dot and a
/// digit follow.
pub open spec fn numbered_name_match(name: Seq<char>, groups: Groups) -> bool {
    match groups {
        Some(g) => {
            &&& g.len() == 2
            &&& g[1] is Some
            &&& has_dotted_prefix(name, g[1]->0)
            &&& is_digit(after_dot(name, g[1]->0))
            &&& forall|prefix: Seq<char>| #[trigger]
                has_dotted_prefix(name, prefix) && is_digit(after_dot(name, prefix))
                    ==> prefix.len() <= g[1]->0.len()
        },
        None => forall|prefix: Seq<char>| #[trigger]
            has_dotted_prefix(name, prefix) ==> !is_digit(after_dot(name, prefix)),
    }
}

/// A nonempty run of digits and underscores.
pub open spec fn is_timestamp(s: Seq<char>) -> bool {
    s.len() > 0 && forall|i: int| 0 <= i < s.len() ==> is_digit(#[trigger] s[i]) || s[i] == '_'
}

/// What the pattern of `prefix` captures of a name: what follows the prefix and a
/// dot, where all of it is digits and underscores.
pub open spec fn snapshot_match(prefix: Seq<char>, name: Seq<char>, groups: Groups) -> bool {
    match groups {
        Some(g) => {
            &&& g.len() == 2
            &&& g[1] is Some
            &&& is_timestamp(g[1]->0)
            &&& name == prefix.push('.') + g[1]->0
        },
        None => forall|stamp: Seq<char>|
            name == #[trigger] (prefix.push('.') + stamp) ==> !is_timestamp(stamp),
    }
}

/// The error of `regex::Regex::new`.
#[verifier::external_type_specification]
#[verifier::external_body]
pub struct ExRegexError(regex::Error);

/// What `regex::Regex::captures` returns for the pattern that
/// `regex::Regex::new` was given: the text of each group, in order.
pub uninterp spec fn captures_of(pattern: Seq<char>, text: Seq<char>) -> Option<
    Seq<Option<Seq<char>>>,
>;

/// Calls `regex::Regex::new` and `regex::Regex::captures`, and takes the text of
/// every group out of the captures.
///
/// Claimed: what is captured depends on the pattern and the text alone. The three
/// fixed patterns compile, and so does the pattern of each snapshot prefix of at
/// most `PREFIX_LIMIT` characters. The one thing that could reject such a pattern is the
/// engine's limit of ten mebibytes on a compiled pattern. A character of the prefix takes
/// one state for each of its bytes, of which there are at most four, and a state takes at
/// most 32 bytes of memory; so the prefix leaves two megabytes for the rest of the pattern,
/// which needs far less. Which longer prefixes are rejected depends on the size of a state
/// on the machine and is not said.
///
/// What these patterns capture follows the documented syntax: `^` and `$` are the ends of
/// the whole text, `.` is any character but a newline, `\s` is `White_Space`, `\d` is a
/// decimal digit of any script, an escaped text stands for itself, and each repetition is
/// greedy, the first one first. Of ASCII, `\d` accepts the ten digits only; of the other
/// characters it accepts in each pattern those that it accepts alone, in `DIGIT`.
#[verifier::external_body]
pub(crate) fn captures(pattern: &str, text: &str) -> (found: Result<
    Option<Vec<Option<String>>>,
    regex::Error,
>)
    ensures
        found matches Ok(groups) ==> groups.deep_view() == captures_of(pattern@, text@),
        pattern@ == MOUNT_LINE@ || pattern@ == NESTED_PATH@ || pattern@ == NUMBERED_NAME@
            ==> found is Ok,
        forall|prefix: Seq<char>|
            pattern@ == #[trigger] snapshot_pattern(prefix) && prefix.len() <= PREFIX_LIMIT
                ==> found is Ok,
        found matches Ok(groups) ==> pattern@ == MOUNT_LINE@ ==> mount_line_match(
            text@,
            groups.deep_view(),
        ),
        found matches Ok(groups) ==> pattern@ == NESTED_PATH@ ==> nested_path_match(
            text@,
            groups.deep_view(),
        ),
        found matches Ok(groups) ==> pattern@ == NUMBERED_NAME@ ==> numbered_name_match(
            text@,
            groups.deep_view(),
        ),
        found matches Ok(groups) ==> forall|prefix: Seq<char>|
            pattern@ == #[trigger] snapshot_pattern(prefix) ==> snapshot_match(
                prefix,
                text@,
                groups.deep_view(),
            ),
{
    let expression = regex::Regex::new(pattern)?;
    Ok(
        expression.captures(text).map(
            |found| found.iter().map(|group| group.map(|m| m.as_str().to_string())).collect(),
        ),
    )
}

/// Calls `regex::escape`. Claimed: it puts a backslash before each of the
/// characters of `is_meta` and changes nothing else.
#[verifier::external_body]
pub(crate) fn escape(text: &str) -> (quoted: String)
    ensures
        quoted@ == escaped(text@),
{
    regex::escape(text)
}

/// The text that group `index` captured, where the pattern matched and the group
/// took part.
pub open spec fn group_of(groups: Groups, index: int) -> Option<Seq<char>> {
    match groups {
        Some(g) => if 0 <= index < g.len() {
            g[index]
        } else {
            None
        },
        None => None,
    }
}

/// The text of one group of a match.
pub fn group(groups: &Option<Vec<Option<String>>>, index: usize) -> (text: Option<&str>)
    ensures
        text.deep_view() == group_of(groups.deep_view(), index as int),
{
    match groups {
        Some(g) => if index < g.len() {
            assert(g.deep_view()[index as int] == g@[index as int].deep_view());
            match &g[index] {
                Some(text) => Some(text.as_str()),
                None => None,
            }
        } else {
            None
        },
        None => None,
    }
}

} // verus!
