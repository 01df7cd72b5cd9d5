//! Snapshot names. A snapshot lives at `<directory>/<prefix>.<timestamp>`; the
//! snapshots of one directory and one prefix are a series.

use crate::pattern::{after_dot, has_dotted_prefix, has_nested_name, is_digit, is_one_line};
use crate::pattern::{captures, captures_of, escape, group, group_of, snapshot_pattern};
use crate::pattern::{nested_path_match, numbered_name_match, snapshot_match};
use crate::pattern::{is_timestamp, NESTED_PATH, NUMBERED_NAME, PREFIX_LIMIT};
use crate::text::{is_number, law_smaller_number_precedes, number, precedes};
use vstd::prelude::*;

verus! {

/// The directory and the prefix of the series that a subvolume belongs to by its
/// path.
pub open spec fn series_of(sv: Seq<char>) -> Option<(Seq<char>, Seq<char>)> {
    let nested = captures_of(NESTED_PATH@, sv);
    match (group_of(nested, 1), group_of(nested, 2)) {
        (Some(dir), Some(name)) => match group_of(captures_of(NUMBERED_NAME@, name), 1) {
            Some(prefix) => Some((dir, prefix)),
            None => None,
        },
        _ => None,
    }
}

/// A snapshot's path.
pub open spec fn snapshot_path(
    dir: Seq<char>,
    prefix: Seq<char>,
    timestamp: Seq<char>,
) -> Seq<char> {
    dir + seq!['/'] + snapshot_name(prefix, timestamp)
}

/// A snapshot's name in its directory.
pub open spec fn snapshot_name(prefix: Seq<char>, timestamp: Seq<char>) -> Seq<char> {
    prefix.push('.') + timestamp
}

/// A prefix that a path tells apart from the directory before it and from what
/// follows it.
pub open spec fn is_plain_prefix(s: Seq<char>) -> bool {
    &&& is_one_line(s)
    &&& forall|i: int| 0 <= i < s.len() ==> #[trigger] s[i] != '/' && s[i] != ',' && s[i] != ')'
}

/// The series that a subvolume belongs to by its path.
pub fn find_series(sv: &str) -> (series: Option<(String, String)>)
    ensures
        series.deep_view() == series_of(sv@),
        // The path is parted at the last slash that it can be parted at, and its name at
        // the last dot that a digit follows.
        nested_path_match(sv@, captures_of(NESTED_PATH@, sv@)),
        group_of(captures_of(NESTED_PATH@, sv@), 2) matches Some(name) ==> numbered_name_match(
            name,
            captures_of(NUMBERED_NAME@, name),
        ),
        // A snapshot's path is read back.
        forall|dir: Seq<char>, prefix: Seq<char>, timestamp: Seq<char>|
            {
                &&& sv@ == #[trigger] snapshot_path(dir, prefix, timestamp)
                &&& is_one_line(dir) && is_plain_prefix(prefix)
                &&& is_timestamp(timestamp) && is_digit(timestamp[0])
            } ==> series.deep_view() == Some((dir, prefix)),
        // Nothing is read that the path does not hold.
        series matches Some(s) ==> s.0@.len() > 0 && s.1@.len() > 0 && (s.0@ + seq!['/']
            + s.1@.push('.')).is_prefix_of(sv@),
{
    match captures(NESTED_PATH, sv) {
        Ok(nested) => match (group(&nested, 1), group(&nested, 2)) {
            (Some(dir), Some(name)) => {
                match captures(NUMBERED_NAME, name) {
                    Ok(numbered) => {
                        proof {
                            assert forall|d: Seq<char>, p: Seq<char>, t: Seq<char>|
                                {
                                    &&& sv@ == #[trigger] snapshot_path(d, p, t)
                                    &&& is_one_line(d) && is_plain_prefix(p)
                                    &&& is_timestamp(t) && is_digit(t[0])
                                } implies dir@ == d && group_of(numbered.deep_view(), 1) == Some(
                                p,
                            ) by {
                                lemma_path_parts(d, p, t, dir@, name@);
                                lemma_name_is_numbered(p, t);
                                lemma_name_parts(p, t, numbered.deep_view()->0[1]->0);
                            }
                        }
                        match group(&numbered, 1) {
                            Some(prefix) => {
                                proof {
                                    lemma_parts_are_prefix(sv@, dir@, name@, prefix@);
                                }
                                Some((dir.to_owned(), prefix.to_owned()))
                            },
                            None => None,
                        }
                    },
                    Err(_) => None,
                }
            },
            _ => {
                proof {
                    assert forall|d: Seq<char>, p: Seq<char>, t: Seq<char>|
                        {
                            &&& sv@ == #[trigger] snapshot_path(d, p, t)
                            &&& is_one_line(d) && is_plain_prefix(p)
                            &&& is_timestamp(t) && is_digit(t[0])
                        } implies false by {
                        lemma_path_is_nested(d, p, t);
                    }
                }
                None
            },
        },
        Err(_) => None,
    }
}

proof fn lemma_parts_are_prefix(sv: Seq<char>, dir: Seq<char>, name: Seq<char>, prefix: Seq<char>)
    requires
        has_nested_name(sv, dir, name),
        has_dotted_prefix(name, prefix),
    ensures
        (dir + seq!['/'] + prefix.push('.')).is_prefix_of(sv),
{
    let start = dir + seq!['/'] + prefix.push('.');
    let whole = dir + seq!['/'] + name;
    assert(start =~= whole.take(start.len() as int)) by {
        assert(name.take((prefix.len() + 1) as int) =~= prefix.push('.'));
    }
    assert(whole =~= sv.take(whole.len() as int));
    assert(start =~= sv.take(start.len() as int));
}

/// A snapshot's path parts into its directory and its name.
proof fn lemma_path_is_nested(dir: Seq<char>, prefix: Seq<char>, timestamp: Seq<char>)
    requires
        is_one_line(dir),
        is_plain_prefix(prefix),
        is_timestamp(timestamp),
    ensures
        has_nested_name(
            snapshot_path(dir, prefix, timestamp),
            dir,
            snapshot_name(prefix, timestamp),
        ),
{
    let sv = snapshot_path(dir, prefix, timestamp);
    assert(sv.take(sv.len() as int) =~= sv);
}

/// There is no other way to part a snapshot's path with a directory as long.
proof fn lemma_path_parts(
    dir: Seq<char>,
    prefix: Seq<char>,
    timestamp: Seq<char>,
    dir1: Seq<char>,
    name1: Seq<char>,
)
    requires
        is_one_line(dir),
        is_plain_prefix(prefix),
        is_timestamp(timestamp),
        has_nested_name(snapshot_path(dir, prefix, timestamp), dir1, name1),
        has_nested_name(
            snapshot_path(dir, prefix, timestamp),
            dir,
            snapshot_name(prefix, timestamp),
        ) ==> dir.len() <= dir1.len(),
    ensures
        dir1 == dir,
        name1 == snapshot_name(prefix, timestamp),
{
    let sv = snapshot_path(dir, prefix, timestamp);
    let name = snapshot_name(prefix, timestamp);
    lemma_path_is_nested(dir, prefix, timestamp);
    let start1 = dir1 + seq!['/'] + name1;
    assert(sv[dir1.len() as int] == '/') by {
        assert(sv.take(start1.len() as int)[dir1.len() as int] == start1[dir1.len() as int]);
    }
    if dir1.len() > dir.len() {
        let k = dir1.len() - dir.len() - 1;
        assert(sv[dir1.len() as int] == name[k]);
    }
    assert(dir1 =~= start1.take(dir1.len() as int));
    assert(dir =~= sv.take(dir.len() as int));
    assert(sv.take(start1.len() as int).take(dir.len() as int) =~= sv.take(dir.len() as int));
    let end1 = start1.len() as int;
    if end1 < sv.len() {
        let k = end1 - dir.len() - 1;
        assert(sv[end1] == name[k]);
    }
    assert(start1 =~= sv);
    assert(name1 =~= start1.skip(dir1.len() as int + 1));
    assert(name =~= sv.skip(dir.len() as int + 1));
}

proof fn lemma_name_is_numbered(prefix: Seq<char>, timestamp: Seq<char>)
    requires
        is_one_line(prefix),
        is_timestamp(timestamp),
    ensures
        has_dotted_prefix(snapshot_name(prefix, timestamp), prefix),
        after_dot(snapshot_name(prefix, timestamp), prefix) == timestamp[0],
{
    let name = snapshot_name(prefix, timestamp);
    assert(name.take((prefix.len() + 1) as int) =~= prefix.push('.'));
}

/// No longer prefix of a snapshot's name stands before a dot.
proof fn lemma_name_parts(prefix: Seq<char>, timestamp: Seq<char>, prefix1: Seq<char>)
    requires
        is_timestamp(timestamp),
        has_dotted_prefix(snapshot_name(prefix, timestamp), prefix1),
        prefix.len() <= prefix1.len(),
    ensures
        prefix1 == prefix,
{
    let name = snapshot_name(prefix, timestamp);
    let start1 = prefix1.push('.');
    assert(name[prefix1.len() as int] == start1[prefix1.len() as int]) by {
        assert(name.take(start1.len() as int)[prefix1.len() as int] == name[prefix1.len() as int]);
    }
    if prefix1.len() > prefix.len() {
        let k = prefix1.len() - prefix.len() - 1;
        assert(name[prefix1.len() as int] == timestamp[k]);
    }
    assert(prefix1 =~= start1.take(prefix1.len() as int));
    assert(prefix =~= name.take(prefix.len() as int));
    assert(name.take(start1.len() as int).take(prefix.len() as int) =~= name.take(
        prefix.len() as int,
    ));
}

/// A snapshot's path tells the series of the snapshot.
pub proof fn lemma_path_tells_series(dir: Seq<char>, prefix: Seq<char>, timestamp: Seq<char>)
    requires
        is_one_line(dir),
        is_plain_prefix(prefix),
        is_timestamp(timestamp),
        is_digit(timestamp[0]),
        nested_path_match(
            snapshot_path(dir, prefix, timestamp),
            captures_of(NESTED_PATH@, snapshot_path(dir, prefix, timestamp)),
        ),
        numbered_name_match(
            snapshot_name(prefix, timestamp),
            captures_of(NUMBERED_NAME@, snapshot_name(prefix, timestamp)),
        ),
    ensures
        series_of(snapshot_path(dir, prefix, timestamp)) == Some((dir, prefix)),
{
    let nested = captures_of(NESTED_PATH@, snapshot_path(dir, prefix, timestamp));
    lemma_path_is_nested(dir, prefix, timestamp);
    lemma_path_parts(dir, prefix, timestamp, nested->0[1]->0, nested->0[2]->0);
    let numbered = captures_of(NUMBERED_NAME@, snapshot_name(prefix, timestamp));
    lemma_name_is_numbered(prefix, timestamp);
    lemma_name_parts(prefix, timestamp, numbered->0[1]->0);
}

/// The snapshot that a file name stands for among the snapshots with a prefix.
pub open spec fn candidate_of(prefix: Seq<char>, file_name: Seq<char>) -> Option<Seq<char>> {
    match group_of(captures_of(snapshot_pattern(prefix), file_name), 1) {
        Some(timestamp) => Some(snapshot_name(prefix, timestamp)),
        None => None,
    }
}

/// A prefix that is too long to be searched for.
#[derive(Debug, PartialEq, Eq)]
pub struct PrefixTooLong;

/// The snapshot that the groups of a matched file name stand for.
pub fn candidate_from(prefix: &str, groups: &Option<Vec<Option<String>>>) -> (name: Option<String>)
    ensures
        name.deep_view() == (match group_of(groups.deep_view(), 1) {
            Some(timestamp) => Some(snapshot_name(prefix@, timestamp)),
            None => None,
        }),
{
    match group(groups, 1) {
        Some(timestamp) => {
            let mut name = prefix.to_owned();
            name.append(".");
            name.append(timestamp);
            proof {
                reveal_strlit(".");
                assert(name@ =~= snapshot_name(prefix@, timestamp@));
            }
            Some(name)
        },
        None => None,
    }
}

/// The snapshot that a file name stands for among the snapshots with a prefix. Which
/// prefixes of more than `PREFIX_LIMIT` characters are too long depends on the machine.
pub fn find_candidate(prefix: &str, file_name: &str) -> (name: Result<
    Option<String>,
    PrefixTooLong,
>)
    ensures
        name matches Ok(n) ==> n.deep_view() == candidate_of(prefix@, file_name@),
        name is Err ==> prefix@.len() > PREFIX_LIMIT,
        name is Ok ==> snapshot_match(
            prefix@,
            file_name@,
            captures_of(snapshot_pattern(prefix@), file_name@),
        ),
        // The snapshot is called as the file is.
        name matches Ok(Some(n)) ==> n@ == file_name@ && exists|timestamp: Seq<char>|
            is_timestamp(timestamp) && file_name@ == #[trigger] snapshot_name(
                prefix@,
                timestamp,
            ),
        // No snapshot is passed over.
        name matches Ok(None) ==> forall|timestamp: Seq<char>|
            is_timestamp(timestamp) ==> file_name@ != #[trigger] snapshot_name(prefix@, timestamp),
{
    let mut pattern = "^".to_owned();
    pattern.append(escape(prefix).as_str());
    pattern.append("\\.([\\d_]+)$");
    assert(pattern@ == snapshot_pattern(prefix@));
    match captures(pattern.as_str(), file_name) {
        Ok(groups) => {
            proof {
                if let Some(g) = groups.deep_view() {
                    assert(file_name@ == snapshot_name(prefix@, g[1]->0));
                }
            }
            Ok(candidate_from(prefix, &groups))
        },
        Err(_) => Err(PrefixTooLong),
    }
}

/// A file name stands for the snapshot that is called so, and only where it is the prefix,
/// a dot and a timestamp.
pub proof fn lemma_candidate_is_named_so(prefix: Seq<char>, file_name: Seq<char>)
    requires
        snapshot_match(prefix, file_name, captures_of(snapshot_pattern(prefix), file_name)),
    ensures
        candidate_of(prefix, file_name) matches Some(candidate) ==> candidate == file_name
            && exists|timestamp: Seq<char>|
            is_timestamp(timestamp) && file_name == #[trigger] snapshot_name(prefix, timestamp),
        forall|timestamp: Seq<char>|
            is_timestamp(timestamp) && file_name == #[trigger] snapshot_name(prefix, timestamp)
                ==> candidate_of(prefix, file_name) is Some,
{
    if let Some(g) = captures_of(snapshot_pattern(prefix), file_name) {
        assert(file_name == snapshot_name(prefix, g[1]->0));
    }
}

/// A snapshot's path is its directory, a slash, its prefix, a dot and its timestamp.
pub proof fn law_snapshot_path_is_spelled_out(
    dir: Seq<char>,
    prefix: Seq<char>,
    timestamp: Seq<char>,
)
    ensures
        snapshot_name(prefix, timestamp) == prefix + "."@ + timestamp,
        snapshot_path(dir, prefix, timestamp) == dir + "/"@ + (prefix + "."@ + timestamp),
{
    reveal_strlit(".");
    reveal_strlit("/");
    assert(snapshot_name(prefix, timestamp) =~= prefix + "."@ + timestamp);
    assert("/"@ =~= seq!['/']);
}

/// Of every path, whatever it holds: the directory of its series is the longest one that it
/// can be parted at, and the prefix is the longest one of the name after it that a dot and a
/// digit follow. It belongs to no series only where there is no such parting.
pub proof fn law_series_is_the_longest_parting(
    sv: Seq<char>,
    dir: Seq<char>,
    name: Seq<char>,
    prefix: Seq<char>,
)
    requires
        nested_path_match(sv, captures_of(NESTED_PATH@, sv)),
        numbered_name_match(name, captures_of(NUMBERED_NAME@, name)),
        has_nested_name(sv, dir, name),
        forall|d: Seq<char>, n: Seq<char>| #[trigger]
            has_nested_name(sv, d, n) ==> d.len() <= dir.len(),
    ensures
        series_of(sv) == Some((dir, prefix)) <==> {
            &&& has_dotted_prefix(name, prefix)
            &&& is_digit(after_dot(name, prefix))
            &&& forall|p: Seq<char>| #[trigger]
                has_dotted_prefix(name, p) && is_digit(after_dot(name, p)) ==> p.len()
                    <= prefix.len()
        },
        series_of(sv) is None <==> forall|p: Seq<char>| #[trigger]
            has_dotted_prefix(name, p) ==> !is_digit(after_dot(name, p)),
{
    let g = captures_of(NESTED_PATH@, sv)->0;
    lemma_same_parting(sv, dir, name, g[1]->0, g[2]->0);
    if let Some(h) = captures_of(NUMBERED_NAME@, name) {
        lemma_same_prefix(name, prefix, h[1]->0);
    }
}

/// A path that cannot be parted belongs to no series.
pub proof fn law_flat_path_has_no_series(sv: Seq<char>)
    requires
        nested_path_match(sv, captures_of(NESTED_PATH@, sv)),
        forall|d: Seq<char>, n: Seq<char>| !has_nested_name(sv, d, n),
    ensures
        series_of(sv) is None,
{
    if let Some(g) = captures_of(NESTED_PATH@, sv) {
        assert(has_nested_name(sv, g[1]->0, g[2]->0));
    }
}

proof fn lemma_same_parting(
    sv: Seq<char>,
    dir: Seq<char>,
    name: Seq<char>,
    dir1: Seq<char>,
    name1: Seq<char>,
)
    requires
        has_nested_name(sv, dir, name),
        has_nested_name(sv, dir1, name1),
        dir.len() == dir1.len(),
    ensures
        dir == dir1,
        name == name1,
{
    let a = dir + seq!['/'] + name;
    let b = dir1 + seq!['/'] + name1;
    assert(a =~= sv.take(a.len() as int));
    assert(b =~= sv.take(b.len() as int));
    let n = dir.len() as int + 1;
    if name.len() < name1.len() {
        assert(b[a.len() as int] == name1[name.len() as int]);
        assert(sv[a.len() as int] == b[a.len() as int]);
    } else if name1.len() < name.len() {
        assert(a[b.len() as int] == name[name1.len() as int]);
        assert(sv[b.len() as int] == a[b.len() as int]);
    }
    assert(a =~= b);
    assert(dir =~= a.take(n - 1) && dir1 =~= b.take(n - 1));
    assert(name =~= a.skip(n) && name1 =~= b.skip(n));
}

proof fn lemma_same_prefix(name: Seq<char>, prefix: Seq<char>, prefix1: Seq<char>)
    requires
        has_dotted_prefix(name, prefix1),
    ensures
        has_dotted_prefix(name, prefix) && prefix.len() == prefix1.len() ==> prefix == prefix1,
{
    if has_dotted_prefix(name, prefix) && prefix.len() == prefix1.len() {
        assert(prefix =~= prefix.push('.').take(prefix.len() as int));
        assert(prefix1 =~= prefix1.push('.').take(prefix1.len() as int));
    }
}

/// Of two snapshots of a series whose timestamps are numbers of the same length, the one
/// with the smaller number precedes the other.
pub proof fn law_smaller_timestamp_precedes(prefix: Seq<char>, a: Seq<char>, b: Seq<char>)
    requires
        is_number(a),
        is_number(b),
        a.len() == b.len(),
        number(a) < number(b),
    ensures
        precedes(snapshot_name(prefix, a), snapshot_name(prefix, b)),
        !precedes(snapshot_name(prefix, b), snapshot_name(prefix, a)),
{
    law_smaller_number_precedes(prefix.push('.'), a, b);
}

} // verus!
