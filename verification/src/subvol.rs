//! What `btrfs subvolume show` tells of a subvolume, and whether a subvolume is a
//! clean snapshot.

use crate::error::{result_view, BtramError};
use crate::text::{contains, lines, lines_of, occurs_in, same_text, split_first, split_once};
use crate::text::{is_blank, is_white, lemma_split_first_at, lemma_trimmed_after_blank};
use crate::text::{has_lines, law_split_first_parts, law_text_is_read_as_its_lines};
use crate::text::{trim, trimmed};
use vstd::prelude::*;
use vstd::utf8::{decode_utf8, encode_utf8, encode_utf8_decode_utf8, encode_utf8_valid_utf8};
use vstd::utf8::valid_utf8;

verus! {

/// The properties of a subvolume that tell whether it is a clean snapshot. The
/// text type `T` is `String` in programs and `Seq<char>` in specifications.
#[derive(Debug, PartialEq, Eq)]
pub struct SubvolInfo<T = String> {
    pub flags: T,
    pub received_uuid: T,
    pub generation: T,
    pub gen_at_creation: T,
}

impl DeepView for SubvolInfo {
    type V = SubvolInfo<Seq<char>>;

    open spec fn deep_view(&self) -> SubvolInfo<Seq<char>> {
        SubvolInfo {
            flags: self.flags@,
            received_uuid: self.received_uuid@,
            generation: self.generation@,
            gen_at_creation: self.gen_at_creation@,
        }
    }
}

/// Why a subvolume is not a clean snapshot: it can be written to, or it was written
/// to after it was made. A received subvolume is clean whatever its generations.
pub open spec fn impurity(info: SubvolInfo<Seq<char>>) -> Option<Seq<char>> {
    if info.flags != "readonly"@ {
        Some("RW"@)
    } else if info.received_uuid == "-"@ && info.generation != info.gen_at_creation {
        Some("modified"@)
    } else {
        None
    }
}

/// Why a subvolume is not a clean snapshot, if it is not.
pub fn sv_impure(svi: &SubvolInfo) -> (status: Option<&'static str>)
    ensures
        status.deep_view() == impurity(svi.deep_view()),
{
    if !same_text(svi.flags.as_str(), "readonly") {
        return Some("RW");
    }
    if !same_text(svi.received_uuid.as_str(), "-") {
        return None;
    }
    if !same_text(svi.generation.as_str(), svi.gen_at_creation.as_str()) {
        return Some("modified");
    }
    None
}

/// The path of a subvolume below the mount point of its file system's root.
pub open spec fn subvol_path(root_mount: Seq<char>, sv: Seq<char>) -> Seq<char> {
    root_mount + "/"@ + sv
}

/// The path of a subvolume below the mount point of its file system's root.
pub fn path_of(root_mount: &str, sv: &str) -> (path: String)
    ensures
        path@ == subvol_path(root_mount@, sv@),
{
    let mut path = root_mount.to_owned();
    path.append("/");
    path.append(sv);
    path
}

/// The heading of the list of snapshots, with which the properties end.
pub const SNAPSHOT_LIST: &'static str = "Snapshot(s):";

/// The lines before the list of snapshots.
pub open spec fn property_lines(lines: Seq<Seq<char>>) -> Seq<Seq<char>>
    decreases lines.len(),
{
    if lines.len() == 0 || occurs_in(lines[0], SNAPSHOT_LIST@) {
        Seq::empty()
    } else {
        seq![lines[0]] + property_lines(lines.drop_first())
    }
}

/// The property that a line states: its name, and what follows the colon.
pub open spec fn property_of(line: Seq<char>) -> Option<(Seq<char>, Seq<char>)> {
    match split_first(line, ':') {
        Some((name, value)) => Some((trimmed(name), trimmed(value))),
        None => None,
    }
}

/// What the last line that states a property gives it; nothing where none does.
pub open spec fn property_value(lines: Seq<Seq<char>>, name: Seq<char>) -> Seq<char>
    decreases lines.len(),
{
    if lines.len() == 0 {
        Seq::empty()
    } else if property_of(lines.last()) is Some && (property_of(lines.last())->0).0 == name {
        (property_of(lines.last())->0).1
    } else {
        property_value(lines.drop_last(), name)
    }
}

/// The properties that the given lines state.
pub open spec fn properties(lines: Seq<Seq<char>>) -> SubvolInfo<Seq<char>> {
    SubvolInfo {
        flags: property_value(lines, "Flags"@),
        received_uuid: property_value(lines, "Received UUID"@),
        generation: property_value(lines, "Generation"@),
        gen_at_creation: property_value(lines, "Gen at creation"@),
    }
}

/// How the error of `String::from_utf8` on bytes that are not UTF-8 shows itself to the
/// user.
pub uninterp spec fn utf8_error_text(bytes: Seq<u8>) -> Seq<char>;

/// The text that bytes encode, or the text of the error where they encode none.
pub open spec fn decoded(bytes: Seq<u8>) -> Result<Seq<char>, Seq<char>> {
    if valid_utf8(bytes) {
        Ok(decode_utf8(bytes))
    } else {
        Err(utf8_error_text(bytes))
    }
}

/// What the output of `btrfs subvolume show` tells of the subvolume `sv`: the output
/// begins with the path of the subvolume.
pub open spec fn told_info(sv: Seq<char>, output: Result<Seq<char>, Seq<char>>) -> Result<
    SubvolInfo<Seq<char>>,
    BtramError<Seq<char>>,
> {
    match output {
        Ok(text) => {
            let lines = lines_of(text);
            if lines.len() == 0 || lines[0] != sv {
                Err(BtramError::CommandFailed("Unexpected output from btrfs subvolume show"@))
            } else {
                Ok(properties(property_lines(lines.drop_first())))
            }
        },
        Err(e) => Err(BtramError::InvalidUtf8(e)),
    }
}

/// What an answer of `btrfs subvolume show` tells of the subvolume `sv`.
pub open spec fn shown_info(
    root_mount: Seq<char>,
    sv: Seq<char>,
    success: bool,
    stdout: Seq<u8>,
) -> Result<SubvolInfo<Seq<char>>, BtramError<Seq<char>>> {
    if !success {
        Err(
            BtramError::CommandFailed(
                "btrfs subvolume show failed for "@ + subvol_path(root_mount, sv),
            ),
        )
    } else {
        told_info(sv, decoded(stdout))
    }
}

/// Calls `String::from_utf8`, and takes the text of its error, which is
/// `std::string::FromUtf8Error`. Claimed: it succeeds on valid UTF-8 and on nothing else,
/// and then the text is the one that the bytes encode; the text of the error depends on
/// the bytes alone.
#[verifier::external_body]
fn decode(bytes: Vec<u8>) -> (text: Result<String, String>)
    ensures
        text is Ok <==> valid_utf8(bytes@),
        text matches Ok(s) ==> encode_utf8(s@) == bytes@,
        text matches Err(e) ==> e@ == utf8_error_text(bytes@),
{
    String::from_utf8(bytes).map_err(|e| e.to_string())
}

/// Reads what `btrfs subvolume show` answered for the subvolume `sv` of the file
/// system whose root is mounted at `root_mount`.
pub fn sv_info(root_mount: &str, sv: &str, success: bool, stdout: Vec<u8>) -> (info: Result<
    SubvolInfo,
    BtramError,
>)
    ensures
        result_view(info) == shown_info(root_mount@, sv@, success, stdout@),
{
    if !success {
        let mut text = "btrfs subvolume show failed for ".to_owned();
        text.append(path_of(root_mount, sv).as_str());
        return Err(BtramError::CommandFailed(text));
    }
    let output = decode(stdout);
    proof {
        if output is Ok {
            encode_utf8_decode_utf8(output->Ok_0@);
        }
    }
    read_output(sv, output)
}

/// Reads the output of `btrfs subvolume show` for the subvolume `sv`: its text, or the
/// text of the error where it is not UTF-8.
pub fn read_output(sv: &str, output: Result<String, String>) -> (info: Result<
    SubvolInfo,
    BtramError,
>)
    ensures
        result_view(info) == told_info(
            sv@,
            match output {
                Ok(text) => Ok(text@),
                Err(e) => Err(e@),
            },
        ),
{
    match output {
        Ok(text) => {
            let all = lines(text.as_str());
            let ghost shown = lines_of(text@);
            if all.len() == 0 {
                return Err(
                    BtramError::CommandFailed(
                        "Unexpected output from btrfs subvolume show".to_owned(),
                    ),
                );
            }
            assert(all@[0]@ == shown[0]);
            if !same_text(all[0], sv) {
                return Err(
                    BtramError::CommandFailed(
                        "Unexpected output from btrfs subvolume show".to_owned(),
                    ),
                );
            }
            Ok(read_properties(&all))
        },
        Err(e) => Err(BtramError::InvalidUtf8(e)),
    }
}

/// Reads the properties that the lines after the first one state.
fn read_properties(all: &Vec<&str>) -> (info: SubvolInfo)
    requires
        all.len() > 0,
    ensures
        info.deep_view() == properties(property_lines(all.deep_view().drop_first())),
{
    let ghost rest = all.deep_view().drop_first();
    let mut flags = String::new();
    let mut received_uuid = String::new();
    let mut generation = String::new();
    let mut gen_at_creation = String::new();
    let mut i: usize = 1;
    assert(rest.take(0) =~= Seq::empty());
    proof {
        if all.len() == 1 {
            lemma_property_lines(rest, 0);
        }
    }
    while i < all.len()
        invariant_except_break
            forall|j: int| 0 <= j < i - 1 ==> !occurs_in(#[trigger] rest[j], SNAPSHOT_LIST@),
            i == all.len() ==> property_lines(rest) == rest.take(i - 1),
        invariant
            1 <= i <= all.len(),
            rest == all.deep_view().drop_first(),
            flags@ == property_value(rest.take(i - 1), "Flags"@),
            received_uuid@ == property_value(rest.take(i - 1), "Received UUID"@),
            generation@ == property_value(rest.take(i - 1), "Generation"@),
            gen_at_creation@ == property_value(rest.take(i - 1), "Gen at creation"@),
        ensures
            property_lines(rest) == rest.take(i - 1),
        decreases all.len() - i,
    {
        let line = all[i];
        assert(line@ == rest[i - 1]);
        if contains(line, SNAPSHOT_LIST) {
            proof {
                lemma_property_lines(rest, i - 1);
            }
            break;
        }
        assert(rest.take(i as int).drop_last() =~= rest.take(i - 1));
        if let Some((name, value)) = split_once(line, ':') {
            let name = trim(name);
            let value = trim(value);
            proof {
                reveal_strlit("Flags");
                reveal_strlit("Received UUID");
                reveal_strlit("Generation");
                reveal_strlit("Gen at creation");
                assert("Flags"@.len() == 5 && "Received UUID"@.len() == 13);
                assert("Generation"@.len() == 10 && "Gen at creation"@.len() == 15);
            }
            if same_text(name, "Flags") {
                flags = value.to_owned();
            } else if same_text(name, "Received UUID") {
                received_uuid = value.to_owned();
            } else if same_text(name, "Generation") {
                generation = value.to_owned();
            } else if same_text(name, "Gen at creation") {
                gen_at_creation = value.to_owned();
            }
        }
        i += 1;
        proof {
            if i == all.len() {
                lemma_property_lines(rest, i - 1);
            }
        }
    }
    SubvolInfo { flags, received_uuid, generation, gen_at_creation }
}

/// The properties end where the list of snapshots begins, or with the text.
proof fn lemma_property_lines(lines: Seq<Seq<char>>, n: int)
    requires
        0 <= n <= lines.len(),
        forall|j: int| 0 <= j < n ==> !occurs_in(#[trigger] lines[j], SNAPSHOT_LIST@),
        n < lines.len() ==> occurs_in(lines[n], SNAPSHOT_LIST@),
    ensures
        property_lines(lines) == lines.take(n),
    decreases n,
{
    if n > 0 {
        let rest = lines.drop_first();
        assert forall|j: int| 0 <= j < n - 1 implies !occurs_in(
            #[trigger] rest[j],
            SNAPSHOT_LIST@,
        ) by {
            assert(rest[j] == lines[j + 1]);
        }
        lemma_property_lines(rest, n - 1);
        assert(seq![lines[0]] + rest.take(n - 1) =~= lines.take(n));
    } else {
        assert(lines.take(0) =~= Seq::empty());
    }
}

/// Nothing from the heading of the list of snapshots on has a part in what is told
/// of a subvolume.
pub proof fn law_snapshot_list_is_ignored(
    lines: Seq<Seq<char>>,
    heading: Seq<char>,
    list: Seq<Seq<char>>,
)
    requires
        occurs_in(heading, SNAPSHOT_LIST@),
    ensures
        property_lines(lines + seq![heading] + list) == property_lines(lines),
    decreases lines.len(),
{
    let all = lines + seq![heading] + list;
    if lines.len() > 0 {
        assert(all[0] == lines[0]);
        assert(all.drop_first() =~= lines.drop_first() + seq![heading] + list);
        law_snapshot_list_is_ignored(lines.drop_first(), heading, list);
    } else {
        assert(all[0] == heading);
    }
}

/// A line that states a property.
pub open spec fn property_line(
    indent: Seq<char>,
    name: Seq<char>,
    gap: Seq<char>,
    value: Seq<char>,
) -> Seq<char> {
    indent + name + seq![':'] + (gap + value)
}

/// What a line states of a property is read back, and nothing is read of any other
/// property there. A name holds no colon, and neither it nor the value begins or ends
/// with white space.
pub proof fn law_property_is_read_back(
    lines: Seq<Seq<char>>,
    indent: Seq<char>,
    name: Seq<char>,
    gap: Seq<char>,
    value: Seq<char>,
    other: Seq<char>,
)
    requires
        is_blank(indent),
        is_blank(gap),
        trimmed(name) == name,
        trimmed(value) == value,
        !name.contains(':'),
    ensures
        property_value(lines.push(property_line(indent, name, gap, value)), other) == if other
            == name {
            value
        } else {
            property_value(lines, other)
        },
{
    let line = property_line(indent, name, gap, value);
    let before = indent + name;
    assert(!before.contains(':')) by {
        if before.contains(':') {
            let k = choose|k: int| 0 <= k < before.len() && before[k] == ':';
            if k < indent.len() {
                assert(is_white(indent[k]));
            } else {
                assert(name[k - indent.len()] == ':');
            }
        }
    }
    lemma_split_first_at(before, ':', gap + value);
    lemma_trimmed_after_blank(indent, name);
    lemma_trimmed_after_blank(gap, value);
    assert(lines.push(line).drop_last() =~= lines);
}

/// Whether a line states a property: the name stands before the first colon and the value
/// after it, each with any white space around it.
pub open spec fn states(line: Seq<char>, name: Seq<char>, value: Seq<char>) -> bool {
    exists|before: Seq<char>, after: Seq<char>|
        {
            &&& line == #[trigger] (before + seq![':'] + after)
            &&& !before.contains(':')
            &&& trimmed(before) == name
            &&& trimmed(after) == value
        }
}

proof fn lemma_states(line: Seq<char>, name: Seq<char>, value: Seq<char>)
    ensures
        states(line, name, value) <==> property_of(line) == Some((name, value)),
{
    if states(line, name, value) {
        let (before, after) = choose|before: Seq<char>, after: Seq<char>|
            {
                &&& line == #[trigger] (before + seq![':'] + after)
                &&& !before.contains(':')
                &&& trimmed(before) == name
                &&& trimmed(after) == value
            };
        lemma_split_first_at(before, ':', after);
    }
    law_split_first_parts(line, ':');
    if let Some((before, after)) = split_first(line, ':') {
        assert(line == before + seq![':'] + after);
    }
}

/// The last line that states a property gives its value; where none does, it is empty.
proof fn lemma_property_value(lines: Seq<Seq<char>>, name: Seq<char>, at: int, value: Seq<char>)
    requires
        -1 <= at < lines.len(),
        at >= 0 ==> property_of(lines[at]) == Some((name, value)),
        at < 0 ==> value.len() == 0,
        forall|j: int|
            at < j < lines.len() ==> (property_of(#[trigger] lines[j]) matches Some(p) ==> p.0
                != name),
    ensures
        property_value(lines, name) == value,
    decreases lines.len(),
{
    if lines.len() == 0 {
        assert(value =~= Seq::empty());
    } else if at != lines.len() - 1 {
        assert(property_of(lines[lines.len() - 1]) matches Some(p) ==> p.0 != name);
        lemma_property_value(lines.drop_last(), name, at, value);
    }
}

/// Whether the properties in the output of `btrfs subvolume show` for `sv` are on the lines
/// from the second one up to `end`: the first line is the path, and `end` is where the
/// list of snapshots begins, or the end of the output.
pub open spec fn shows(sv: Seq<char>, lines: Seq<Seq<char>>, end: int) -> bool {
    &&& 1 <= end <= lines.len()
    &&& lines[0] == sv
    &&& forall|j: int| 1 <= j < end ==> !occurs_in(#[trigger] lines[j], "Snapshot(s):"@)
    &&& end < lines.len() ==> occurs_in(lines[end], "Snapshot(s):"@)
}

/// What the subvolume has for a property: the value of one of its four fields.
pub open spec fn has_property(
    info: SubvolInfo<Seq<char>>,
    name: Seq<char>,
    value: Seq<char>,
) -> bool {
    &&& name == "Flags"@ ==> info.flags == value
    &&& name == "Received UUID"@ ==> info.received_uuid == value
    &&& name == "Generation"@ ==> info.generation == value
    &&& name == "Gen at creation"@ ==> info.gen_at_creation == value
}

/// The output of a successful `btrfs subvolume show` for a subvolume can be read whatever
/// the number of its lines, and gives each property the value that the last line before the
/// list of snapshots states for it, wherever that line stands.
pub proof fn law_shown_property_is_read(
    root_mount: Seq<char>,
    sv: Seq<char>,
    text: Seq<char>,
    lines: Seq<Seq<char>>,
    end: int,
    at: int,
    name: Seq<char>,
    value: Seq<char>,
)
    requires
        has_lines(text, lines),
        shows(sv, lines, end),
        1 <= at < end,
        states(lines[at], name, value),
        forall|j: int, v: Seq<char>| at < j < end ==> !(#[trigger] states(lines[j], name, v)),
    ensures
        shown_info(root_mount, sv, true, encode_utf8(text)) matches Ok(info)
            && has_property(info, name, value),
{
    lemma_shown_property(root_mount, sv, text, lines, end, at, name, value);
}

/// A property that no line before the list of snapshots states is empty.
pub proof fn law_unstated_property_is_empty(
    root_mount: Seq<char>,
    sv: Seq<char>,
    text: Seq<char>,
    lines: Seq<Seq<char>>,
    end: int,
    name: Seq<char>,
)
    requires
        has_lines(text, lines),
        shows(sv, lines, end),
        forall|j: int, v: Seq<char>| 1 <= j < end ==> !(#[trigger] states(lines[j], name, v)),
    ensures
        shown_info(root_mount, sv, true, encode_utf8(text)) matches Ok(info)
            && has_property(info, name, Seq::empty()),
{
    lemma_shown_property(root_mount, sv, text, lines, end, 0, name, Seq::empty());
}

proof fn lemma_shown_property(
    root_mount: Seq<char>,
    sv: Seq<char>,
    text: Seq<char>,
    lines: Seq<Seq<char>>,
    end: int,
    at: int,
    name: Seq<char>,
    value: Seq<char>,
)
    requires
        has_lines(text, lines),
        shows(sv, lines, end),
        0 <= at < end,
        at > 0 ==> states(lines[at], name, value),
        at == 0 ==> value.len() == 0,
        forall|j: int, v: Seq<char>| at < j < end ==> !(#[trigger] states(lines[j], name, v)),
    ensures
        shown_info(root_mount, sv, true, encode_utf8(text)) matches Ok(info)
            && has_property(info, name, value),
{
    lemma_encoded(text);
    law_text_is_read_as_its_lines(text, lines);
    let rest = lines.drop_first();
    assert forall|j: int| 0 <= j < end - 1 implies !occurs_in(#[trigger] rest[j], SNAPSHOT_LIST@) by {
        assert(rest[j] == lines[j + 1]);
    }
    if end < lines.len() {
        assert(rest[end - 1] == lines[end]);
    }
    lemma_property_lines(rest, end - 1);
    let read = rest.take(end - 1);
    if at > 0 {
        assert(read[at - 1] == lines[at]);
        lemma_states(lines[at], name, value);
    }
    assert forall|j: int| at - 1 < j < read.len() implies (property_of(
        #[trigger] read[j],
    ) matches Some(p) ==> p.0 != name) by {
        assert(read[j] == lines[j + 1]);
        if let Some(p) = property_of(read[j]) {
            lemma_states(lines[j + 1], p.0, p.1);
            if p.0 == name {
                assert(states(lines[j + 1], name, p.1));
            }
        }
    }
    lemma_property_value(read, name, at - 1, value);
}

/// An encoded text is decoded to the text.
proof fn lemma_encoded(text: Seq<char>)
    ensures
        decoded(encode_utf8(text)) == Ok::<Seq<char>, Seq<char>>(text),
{
    encode_utf8_valid_utf8(text);
    encode_utf8_decode_utf8(text);
}

/// An answer for another subvolume is refused, as is no answer, and a failed command, and
/// output that is not UTF-8.
pub proof fn law_other_answers_are_refused(
    root_mount: Seq<char>,
    sv: Seq<char>,
    text: Seq<char>,
    lines: Seq<Seq<char>>,
    stdout: Seq<u8>,
)
    requires
        has_lines(text, lines),
        lines.len() == 0 || lines[0] != sv,
    ensures
        shown_info(root_mount, sv, true, encode_utf8(text)) == Err::<
            SubvolInfo<Seq<char>>,
            BtramError<Seq<char>>,
        >(BtramError::CommandFailed("Unexpected output from btrfs subvolume show"@)),
        shown_info(root_mount, sv, false, stdout) == Err::<
            SubvolInfo<Seq<char>>,
            BtramError<Seq<char>>,
        >(
            BtramError::CommandFailed(
                "btrfs subvolume show failed for "@ + (root_mount + "/"@ + sv),
            ),
        ),
        !valid_utf8(stdout) ==> shown_info(root_mount, sv, true, stdout) == Err::<
            SubvolInfo<Seq<char>>,
            BtramError<Seq<char>>,
        >(BtramError::InvalidUtf8(utf8_error_text(stdout))),
{
    lemma_encoded(text);
    law_text_is_read_as_its_lines(text, lines);
}

/// A subvolume is a clean snapshot just where it is read-only and either was received or has
/// not changed since it was made. Otherwise it is told apart as one that can be written to
/// or one that was modified.
pub proof fn law_clean_is_read_only_and_unmodified(info: SubvolInfo<Seq<char>>)
    ensures
        impurity(info) is None <==> info.flags == "readonly"@ && (info.received_uuid != "-"@
            || info.generation == info.gen_at_creation),
        impurity(info) == Some("RW"@) <==> info.flags != "readonly"@,
        impurity(info) == Some("modified"@) <==> info.flags == "readonly"@ && info.received_uuid
            == "-"@ && info.generation != info.gen_at_creation,
{
    reveal_strlit("RW");
    reveal_strlit("modified");
    assert("RW"@.len() == 2 && "modified"@.len() == 8);
}

} // verus!
