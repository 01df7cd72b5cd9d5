//! What each event of a run leads to.

use crate::config::{ConfigEntry, Entries};
use crate::error::BtramError;
use crate::latest::LatestSearch;
use crate::message::{Message, Stream};
use crate::mounts::{mount_fields, MountFields};
use crate::pattern::{captures_of, has_nested_name, is_digit, is_one_line, is_timestamp};
use crate::pattern::{nested_path_match, numbered_name_match, snapshot_match, snapshot_pattern};
use crate::pattern::{MOUNT_LINE, NESTED_PATH, NUMBERED_NAME};
use crate::remount::{echoes, job_messages, MountJob};
use crate::series::{is_plain_prefix, law_flat_path_has_no_series, law_snapshot_path_is_spelled_out};
use crate::series::{lemma_candidate_is_named_so, lemma_path_tells_series, snapshot_name};
use crate::session::{awaits, begun, gave_up, is_session, lemma_next_pending, next_pending};
use crate::session::{no_device, no_snapshots, stepped, take_up, Action, Event, EventView, Phase};
use crate::session::{ReplyView, Resume, SessionState, Task};
use crate::subvol::{impurity, shown_info};
use crate::table::{lemma_lookup_put, lookup};
use crate::text::precedes;
use vstd::prelude::*;

verus! {

/// Whether a line of the mount table reports a mount of btrfs with these fields.
pub open spec fn reports(line: Seq<char>, m: MountFields) -> bool {
    mount_fields(captures_of(MOUNT_LINE@, line)) == Some(m) && m.fstype == "btrfs"@
}

/// Whether the option `subvol` of a mount has this value.
pub open spec fn has_subvol(m: MountFields, sv: Seq<char>) -> bool {
    m.options.contains_key("subvol"@) && m.options["subvol"@] == Some(sv)
}

/// A line for standard error.
pub open spec fn warns(text: Seq<char>) -> Message<Seq<char>> {
    Message { stream: Stream::Stderr, text }
}

/// A line for standard output.
pub open spec fn tells(text: Seq<char>) -> Message<Seq<char>> {
    Message { stream: Stream::Stdout, text }
}

/// A session begins with its configuration, knows no root, and waits for the mount table.
pub proof fn law_session_begins_unknowing(
    entries: Entries,
    verbose: bool,
    run_mode: bool,
    event: EventView,
)
    ensures
        ({
            let state = begun(entries, verbose, run_mode);
            &&& state.entries == entries && state.verbose == verbose && state.run_mode == run_mode
            &&& state.phase is Lines
            &&& awaits(state.phase, event) <==> event is Line || event is EndOfLines
            &&& forall|key: Seq<char>|
                !state.roots.bd2root.contains_key(key) && !state.roots.root2bd.contains_key(key)
        }),
{
}

/// The line of a root subvolume makes its mount point known as the root of its device, and
/// its device as that of the mount point, whatever was known before. What is known of other
/// devices and mount points stays, and nothing else is done.
pub proof fn law_root_is_noted(
    state: SessionState,
    line: Seq<char>,
    m: MountFields,
    other: Seq<char>,
)
    requires
        state.phase is Lines,
        reports(line, m),
        has_subvol(m, "/"@),
    ensures
        ({
            let (next, reply) = stepped(state, Event::Line(line));
            let before = state.roots;
            let after = next.roots;
            &&& after.bd2root.contains_key(m.blkdev) && after.bd2root[m.blkdev] == m.mount
            &&& after.root2bd.contains_key(m.mount) && after.root2bd[m.mount] == m.blkdev
            &&& other != m.blkdev ==> {
                &&& after.bd2root.contains_key(other) == before.bd2root.contains_key(other)
                &&& before.bd2root.contains_key(other) ==> after.bd2root[other]
                    == before.bd2root[other]
            }
            &&& other != m.mount ==> {
                &&& after.root2bd.contains_key(other) == before.root2bd.contains_key(other)
                &&& before.root2bd.contains_key(other) ==> after.root2bd[other]
                    == before.root2bd[other]
            }
            &&& next == SessionState { roots: after, ..state }
            &&& reply.action is NextLine && reply.messages.len() == 0
        }),
{
}

/// Only the line of a root subvolume changes what is known of roots, and no event changes how
/// the run is to be done.
pub proof fn law_only_root_lines_change_roots(state: SessionState, event: EventView)
    requires
        awaits(state.phase, event),
    ensures
        stepped(state, event).0.verbose == state.verbose,
        stepped(state, event).0.run_mode == state.run_mode,
        stepped(state, event).0.roots != state.roots ==> exists|line: Seq<char>, m: MountFields|
            event == Event::<Seq<char>, Seq<u8>>::Line(line) && #[trigger] reports(line, m)
                && has_subvol(m, "/"@),
{
    if let (Phase::Lines, Event::Line(line)) = (state.phase, event) {
        if let Some(m) = mount_fields(captures_of(MOUNT_LINE@, line)) {
            if stepped(state, event).0.roots != state.roots {
                assert(reports(line, m));
            }
        }
    }
}

/// A subvolume whose path does not begin with a slash ends the run.
pub proof fn law_relative_subvol_is_refused(
    state: SessionState,
    line: Seq<char>,
    m: MountFields,
    sv: Seq<char>,
)
    requires
        state.phase is Lines,
        reports(line, m),
        has_subvol(m, sv),
        sv.len() == 0 || sv[0] != '/',
    ensures
        stepped(state, Event::Line(line)) == (
            SessionState { phase: Phase::Finished, ..state },
            ReplyView {
                action: Action::Fail(BtramError::BadSubvolPath(sv)),
                messages: Seq::empty(),
            },
        ),
{
    reveal_strlit("/");
}

/// A subvolume of a device whose root is not known is left alone, with a warning.
pub proof fn law_subvol_without_its_root_is_left_alone(
    state: SessionState,
    line: Seq<char>,
    m: MountFields,
    path: Seq<char>,
)
    requires
        state.phase is Lines,
        reports(line, m),
        has_subvol(m, seq!['/'] + path),
        path.len() > 0,
        !state.roots.bd2root.contains_key(m.blkdev),
    ensures
        stepped(state, Event::Line(line)) == (
            state,
            ReplyView {
                action: Action::NextLine,
                messages: seq![
                    warns(
                        "Warning: "@ + m.blkdev + " has a subvol at '"@ + m.mount
                            + "', but its root subvol is not mounted"@,
                    ),
                ],
            },
        ),
{
    reveal_strlit("/");
    assert((seq!['/'] + path).len() > 1 && "/"@.len() == 1);
    assert((seq!['/'] + path)[0] == '/');
}

/// A subvolume of a device whose root is known is looked at, below that root. An entry of the
/// configuration for its mount point is done then, and no other entry changes; where there is
/// none, there is a warning.
pub proof fn law_mounted_subvol_is_looked_at(
    state: SessionState,
    line: Seq<char>,
    m: MountFields,
    path: Seq<char>,
    other: Seq<char>,
)
    requires
        state.phase is Lines,
        reports(line, m),
        has_subvol(m, seq!['/'] + path),
        path.len() > 0,
        state.roots.bd2root.contains_key(m.blkdev),
    ensures
        ({
            let root = state.roots.bd2root[m.blkdev];
            let (next, reply) = stepped(state, Event::Line(line));
            &&& reply.action == Action::<Seq<char>, Seq<Seq<char>>>::Show(
                seq!["btrfs"@, "subvolume"@, "show"@, root + "/"@ + path],
            )
            &&& next == SessionState {
                phase: Phase::Inspecting {
                    blkdev: m.blkdev,
                    mount: m.mount,
                    root_mount: root,
                    sv: path,
                },
                entries: next.entries,
                ..state
            }
            &&& lookup(next.entries, m.mount) == match lookup(state.entries, m.mount) {
                Some(entry) => Some(ConfigEntry { done: true, ..entry }),
                None => None,
            }
            &&& other != m.mount ==> lookup(next.entries, other) == lookup(state.entries, other)
            &&& reply.messages == if lookup(state.entries, m.mount) is Some {
                Seq::empty()
            } else {
                seq![warns("Warning: mount '"@ + m.mount + "' is not mentioned in config"@)]
            }
        }),
{
    reveal_strlit("/");
    let sv = seq!['/'] + path;
    assert(sv.len() > 1 && "/"@.len() == 1);
    assert(sv[0] == '/');
    assert(sv.drop_first() =~= path);
    if let Some(entry) = lookup(state.entries, m.mount) {
        let done = ConfigEntry { done: true, ..entry };
        lemma_lookup_put(state.entries, m.mount, done, m.mount);
        lemma_lookup_put(state.entries, m.mount, done, other);
    }
}

/// The search for the latest snapshot of a series that nothing was found for yet.
pub open spec fn unsearched(
    root_mount: Seq<char>,
    ssdir: Seq<char>,
    prefix: Seq<char>,
) -> LatestSearch<Seq<char>> {
    LatestSearch { root_mount, ssdir, prefix, latest: None }
}

/// The paths that may be snapshots of a series.
pub open spec fn listing(
    root_mount: Seq<char>,
    ssdir: Seq<char>,
    prefix: Seq<char>,
) -> Action<Seq<char>, Seq<Seq<char>>> {
    Action::Glob(root_mount + "/"@ + ssdir + "/"@ + prefix + ".*"@)
}

/// A mount without a subvolume gets a warning. Where its mount point is configured, the
/// series of the entry is searched; else it is left alone. It is not done.
pub proof fn law_mount_without_subvol_is_searched_for(
    state: SessionState,
    line: Seq<char>,
    m: MountFields,
)
    requires
        state.phase is Lines,
        reports(line, m),
        forall|sv: Seq<char>| !has_subvol(m, sv),
    ensures
        ({
            let (next, reply) = stepped(state, Event::Line(line));
            &&& reply.messages == seq![
                warns("Warning: mount '"@ + m.mount + "' has no subvol; was it deleted?"@),
            ]
            &&& match lookup(state.entries, m.mount) {
                None => next == state && reply.action is NextLine,
                Some(cfg) => if cfg.prefix.len() == 0 {
                    &&& next == SessionState { phase: Phase::Finished, ..state }
                    &&& reply.action == Action::<Seq<char>, Seq<Seq<char>>>::Fail(
                        BtramError::BadConfig("Empty snapshot prefix"@),
                    )
                } else {
                    &&& next == SessionState {
                        phase: Phase::Listing {
                            search: unsearched(cfg.root, cfg.dir, cfg.prefix),
                            task: Task::Replace {
                                blkdev: m.blkdev,
                                mount: m.mount,
                                current: None,
                            },
                        },
                        ..state
                    }
                    &&& reply.action == listing(cfg.root, cfg.dir, cfg.prefix)
                },
            }
        }),
{
    if m.options.contains_key("subvol"@) {
        if let Some(sv) = m.options["subvol"@] {
            assert(has_subvol(m, sv));
        }
    }
}

/// A mounted subvolume that is not a clean snapshot is left alone, and one that cannot be
/// described ends the run.
pub proof fn law_unclean_mount_is_left_alone(
    state: SessionState,
    blkdev: Seq<char>,
    mount: Seq<char>,
    root_mount: Seq<char>,
    sv: Seq<char>,
    success: bool,
    stdout: Seq<u8>,
)
    requires
        state.phase == (Phase::Inspecting { blkdev, mount, root_mount, sv }),
    ensures
        ({
            let (next, reply) = stepped(state, Event::Shown { success, stdout });
            match shown_info(root_mount, sv, success, stdout) {
                Err(e) => {
                    &&& next == SessionState { phase: Phase::Finished, ..state }
                    &&& reply.action == Action::<Seq<char>, Seq<Seq<char>>>::Fail(e)
                    &&& reply.messages.len() == 0
                },
                Ok(info) => impurity(info) matches Some(status) ==> {
                    &&& next == SessionState { phase: Phase::Lines, ..state }
                    &&& reply.action is NextLine
                    &&& reply.messages == if state.verbose {
                        seq![
                            tells(
                                "Mount [skipped - "@ + status + "]: '"@ + mount + "' -> "@ + (
                                root_mount + "/"@ + sv),
                            ),
                        ]
                    } else {
                        Seq::empty()
                    }
                },
            }
        }),
{
}

/// A clean subvolume that is not a directory deep is left alone.
pub proof fn law_flat_subvol_is_left_alone(
    state: SessionState,
    blkdev: Seq<char>,
    mount: Seq<char>,
    root_mount: Seq<char>,
    sv: Seq<char>,
    stdout: Seq<u8>,
)
    requires
        state.phase == (Phase::Inspecting { blkdev, mount, root_mount, sv }),
        nested_path_match(sv, captures_of(NESTED_PATH@, sv)),
        !sv.contains('/'),
        shown_info(root_mount, sv, true, stdout) matches Ok(info) && impurity(info) is None,
    ensures
        stepped(state, Event::Shown { success: true, stdout }) == (
            SessionState { phase: Phase::Lines, ..state },
            ReplyView { action: Action::NextLine, messages: Seq::empty() },
        ),
{
    assert forall|dir: Seq<char>, name: Seq<char>| !has_nested_name(
        sv,
        dir,
        name,
    ) by {
        if has_nested_name(sv, dir, name) {
            let start = dir + seq!['/'] + name;
            assert(start[dir.len() as int] == '/');
            assert(sv.take(start.len() as int)[dir.len() as int] == sv[dir.len() as int]);
        }
    }
    law_flat_path_has_no_series(sv);
}

/// A clean snapshot that is mounted leads to a search of its series.
pub proof fn law_clean_snapshot_is_searched_for(
    state: SessionState,
    blkdev: Seq<char>,
    mount: Seq<char>,
    root_mount: Seq<char>,
    dir: Seq<char>,
    prefix: Seq<char>,
    timestamp: Seq<char>,
    stdout: Seq<u8>,
)
    requires
        is_one_line(dir),
        is_plain_prefix(prefix),
        is_timestamp(timestamp),
        is_digit(timestamp[0]),
        ({
            let name = prefix + "."@ + timestamp;
            let sv = dir + "/"@ + name;
            &&& state.phase == Phase::Inspecting { blkdev, mount, root_mount, sv }
            &&& nested_path_match(sv, captures_of(NESTED_PATH@, sv))
            &&& numbered_name_match(name, captures_of(NUMBERED_NAME@, name))
            &&& shown_info(root_mount, sv, true, stdout) matches Ok(info)
            &&& impurity(info) is None
        }),
    ensures
        ({
            let sv = dir + "/"@ + (prefix + "."@ + timestamp);
            let (next, reply) = stepped(state, Event::Shown { success: true, stdout });
            &&& next == SessionState {
                phase: Phase::Listing {
                    search: unsearched(root_mount, dir, prefix),
                    task: Task::Replace { blkdev, mount, current: Some(sv) },
                },
                ..state
            }
            &&& reply.action == listing(root_mount, dir, prefix)
            &&& reply.messages == if state.verbose {
                seq![
                    tells(
                        "Mount [candidate]: '"@ + mount + "' -> '"@ + (root_mount + "/"@ + sv)
                            + "'"@,
                    ),
                ]
            } else {
                Seq::empty()
            }
        }),
{
    law_snapshot_path_is_spelled_out(dir, prefix, timestamp);
    lemma_path_tells_series(dir, prefix, timestamp);
}

/// A listed path that is called as a snapshot of the series is described, and every other is
/// passed over.
pub proof fn law_snapshots_of_the_series_are_examined(
    state: SessionState,
    search: LatestSearch<Seq<char>>,
    task: Task<Seq<char>>,
    file_name: Seq<char>,
)
    requires
        state.phase == (Phase::Listing { search, task }),
        snapshot_match(
            search.prefix,
            file_name,
            captures_of(snapshot_pattern(search.prefix), file_name),
        ),
    ensures
        ({
            let (next, reply) = stepped(state, Event::Entry(file_name));
            let is_snapshot = exists|timestamp: Seq<char>|
                is_timestamp(timestamp) && file_name == #[trigger] (search.prefix + "."@
                    + timestamp);
            &&& reply.messages.len() == 0
            &&& is_snapshot ==> {
                &&& next == SessionState {
                    phase: Phase::Examining { search, task, candidate: file_name },
                    ..state
                }
                &&& reply.action == Action::<Seq<char>, Seq<Seq<char>>>::Show(
                    seq![
                        "btrfs"@,
                        "subvolume"@,
                        "show"@,
                        search.root_mount + "/"@ + (search.ssdir + "/"@ + file_name),
                    ],
                )
            }
            &&& !is_snapshot ==> next == state && reply.action is NextEntry
        }),
{
    lemma_candidate_is_named_so(search.prefix, file_name);
    assert forall|timestamp: Seq<char>| #[trigger]
        snapshot_name(search.prefix, timestamp) == search.prefix + "."@ + timestamp by {
        law_snapshot_path_is_spelled_out(Seq::empty(), search.prefix, timestamp);
    }
    if exists|timestamp: Seq<char>|
        is_timestamp(timestamp) && file_name == #[trigger] (search.prefix + "."@ + timestamp) {
        let timestamp = choose|timestamp: Seq<char>|
            is_timestamp(timestamp) && file_name == #[trigger] (search.prefix + "."@ + timestamp);
        assert(file_name == snapshot_name(search.prefix, timestamp));
    }
    if exists|timestamp: Seq<char>|
        is_timestamp(timestamp) && file_name == #[trigger] snapshot_name(search.prefix, timestamp) {
        let timestamp = choose|timestamp: Seq<char>|
            is_timestamp(timestamp) && file_name == #[trigger] snapshot_name(
                search.prefix,
                timestamp,
            );
        assert(file_name == search.prefix + "."@ + timestamp);
    }
}

/// A clean snapshot counts where nothing later was found before it; one that is not clean is
/// told and does not count; one that cannot be described ends the run.
pub proof fn law_examined_snapshot_counts_if_clean(
    state: SessionState,
    search: LatestSearch<Seq<char>>,
    task: Task<Seq<char>>,
    candidate: Seq<char>,
    success: bool,
    stdout: Seq<u8>,
)
    requires
        state.phase == (Phase::Examining { search, task, candidate }),
    ensures
        ({
            let (next, reply) = stepped(state, Event::Shown { success, stdout });
            let sv = search.ssdir + "/"@ + candidate;
            match shown_info(search.root_mount, sv, success, stdout) {
                Err(e) => {
                    &&& next == SessionState { phase: Phase::Finished, ..state }
                    &&& reply.action == Action::<Seq<char>, Seq<Seq<char>>>::Fail(e)
                    &&& reply.messages.len() == 0
                },
                Ok(info) => {
                    let newer = search.latest is None || precedes(search.latest->0, candidate);
                    &&& reply.action is NextEntry
                    &&& next == SessionState {
                        phase: Phase::Listing {
                            search: if impurity(info) is None && newer {
                                LatestSearch { latest: Some(candidate), ..search }
                            } else {
                                search
                            },
                            task,
                        },
                        ..state
                    }
                    &&& reply.messages == match impurity(info) {
                        Some(status) => seq![
                            warns("Warning: ignoring "@ + status + " subvol '"@ + sv + "'"@),
                        ],
                        None => Seq::empty(),
                    }
                },
            }
        }),
{
}

/// A search for a mount that found something else than what is mounted tells so and replaces
/// it: the mount point is unmounted first where commands are to be run. A search that found
/// nothing else leaves the mount alone.
pub proof fn law_search_replaces_the_mount(
    state: SessionState,
    search: LatestSearch<Seq<char>>,
    blkdev: Seq<char>,
    mount: Seq<char>,
    current: Option<Seq<char>>,
)
    requires
        state.phase == (Phase::Listing { search, task: Task::Replace { blkdev, mount, current } }),
    ensures
        ({
            let (next, reply) = stepped(state, Event::EndOfEntries);
            let sv = search.ssdir + "/"@ + search.latest->0;
            let path = search.root_mount + "/"@ + sv;
            if search.latest is None || current == Some(sv) {
                &&& next == SessionState { phase: Phase::Lines, ..state }
                &&& reply.action is NextLine
                &&& reply.messages.len() == 0
            } else {
                &&& reply.messages == seq![
                    match current {
                        Some(old) => tells(
                            "'"@ + mount + "': '"@ + path + "' replaces '"@ + (search.root_mount
                                + "/"@ + old) + "'"@,
                        ),
                        None => tells("'"@ + mount + "': "@ + path + " replaces <none>"@),
                    },
                ] + echoes(mount, blkdev, sv, true, state.verbose)
                &&& state.run_mode ==> {
                    &&& reply.action == Action::<Seq<char>, Seq<Seq<char>>>::Run(
                        seq!["umount"@, mount],
                    )
                    &&& next == SessionState {
                        phase: Phase::Mounting {
                            job: MountJob::Unmounting { mount, blkdev, sv },
                            resume: Resume::Lines,
                        },
                        ..state
                    }
                }
                &&& !state.run_mode ==> {
                    &&& reply.action is NextLine
                    &&& next == SessionState { phase: Phase::Lines, ..state }
                }
            }
        }),
{
}

/// How a run goes on with the configuration from a place in its order on: the first entry
/// that is not done is searched for, and the run ends where all are done.
pub open spec fn takes_up(
    state: SessionState,
    from: int,
    told: Seq<Message<Seq<char>>>,
    next: SessionState,
    reply: ReplyView,
) -> bool {
    let entries = state.entries;
    &&& next == SessionState { phase: next.phase, ..state }
    &&& (forall|j: int| from <= j < entries.len() ==> (#[trigger] entries[j]).1.done) ==> {
        &&& next.phase is Finished
        &&& reply.action is Finish
        &&& reply.messages == told
    }
    &&& forall|i: int|
        from <= i < entries.len() && !(#[trigger] entries[i]).1.done && (forall|j: int|
            from <= j < i ==> (#[trigger] entries[j]).1.done) ==> {
            let (mount, cfg) = entries[i];
            &&& reply.messages == told.push(tells("Mount [fresh]: "@ + mount))
            &&& cfg.prefix.len() == 0 ==> {
                &&& next.phase is Finished
                &&& reply.action == Action::<Seq<char>, Seq<Seq<char>>>::Fail(
                    BtramError::BadConfig("Empty snapshot prefix"@),
                )
            }
            &&& cfg.prefix.len() > 0 ==> {
                &&& reply.action == listing(cfg.root, cfg.dir, cfg.prefix)
                &&& next.phase == Phase::Listing {
                    search: unsearched(cfg.root, cfg.dir, cfg.prefix),
                    task: Task::Fresh { index: i as usize },
                }
            }
        }
}

proof fn lemma_takes_up(state: SessionState, from: int, told: Seq<Message<Seq<char>>>)
    requires
        0 <= from <= state.entries.len(),
    ensures
        ({
            let (next, reply) = take_up(state, from, told);
            takes_up(state, from, told, next, reply)
        }),
{
    let entries = state.entries;
    let at = next_pending(entries, from);
    lemma_next_pending(entries, from);
    let (next, reply) = take_up(state, from, told);
    assert forall|i: int|
        from <= i < entries.len() && !(#[trigger] entries[i]).1.done && (forall|j: int|
            from <= j < i ==> (#[trigger] entries[j]).1.done) implies i == at by {
        if at < i {
            assert(entries[at].1.done);
        }
    }
}

/// When the mount table has ended, the entries that were not found mounted are searched for,
/// in order.
pub proof fn law_missing_mounts_follow_the_table(state: SessionState)
    requires
        state.phase is Lines,
    ensures
        ({
            let (next, reply) = stepped(state, Event::EndOfLines);
            takes_up(state, 0, Seq::empty(), next, reply)
        }),
{
    lemma_takes_up(state, 0, Seq::empty());
}

/// What a search for an entry found is mounted where the device of the entry's root is known;
/// else there is a warning, as there is where nothing was found. The run goes on with the
/// entries after it.
pub proof fn law_search_mounts_what_is_missing(
    state: SessionState,
    search: LatestSearch<Seq<char>>,
    index: usize,
)
    requires
        is_session(state),
        state.phase == (Phase::Listing { search, task: Task::Fresh { index } }),
    ensures
        ({
            let (next, reply) = stepped(state, Event::EndOfEntries);
            let mount = state.entries[index as int].0;
            let sv = search.ssdir + "/"@ + search.latest->0;
            if search.latest is None {
                takes_up(
                    state,
                    index + 1,
                    seq![
                        warns(
                            "Warning: '"@ + mount + "' has no snapshots '"@ + (search.root_mount
                                + "/"@ + search.ssdir + "/"@ + search.prefix + ".*"@) + "'"@,
                        ),
                    ],
                    next,
                    reply,
                )
            } else if !state.roots.root2bd.contains_key(search.root_mount) {
                takes_up(
                    state,
                    index + 1,
                    seq![
                        warns(
                            "Warning: Could not find block device for root mount "@
                                + search.root_mount,
                        ),
                    ],
                    next,
                    reply,
                )
            } else {
                let blkdev = state.roots.root2bd[search.root_mount];
                let shown = echoes(mount, blkdev, sv, false, state.verbose);
                &&& state.run_mode ==> {
                    &&& reply.action == Action::<Seq<char>, Seq<Seq<char>>>::Run(
                        seq!["mount"@, "-o"@, "ro,subvol="@ + sv, blkdev, mount],
                    )
                    &&& reply.messages == shown
                    &&& next == SessionState {
                        phase: Phase::Mounting {
                            job: MountJob::Mounting { mount },
                            resume: Resume::Fresh { index: (index + 1) as usize },
                        },
                        ..state
                    }
                }
                &&& !state.run_mode ==> takes_up(state, index + 1, shown, next, reply)
            }
        }),
{
    let mount = state.entries[index as int].0;
    let end = stepped(state, Event::EndOfEntries);
    if search.latest is None {
        let told = seq![no_snapshots(mount, search)];
        assert(end == take_up(state, index + 1, told));
        lemma_takes_up(state, index + 1, told);
    } else if !state.roots.root2bd.contains_key(search.root_mount) {
        let told = seq![no_device(search.root_mount)];
        assert(end == take_up(state, index + 1, told));
        lemma_takes_up(state, index + 1, told);
    } else {
        let blkdev = state.roots.root2bd[search.root_mount];
        let sv = search.ssdir + "/"@ + search.latest->0;
        let shown = echoes(mount, blkdev, sv, false, state.verbose);
        assert(Seq::<Message<Seq<char>>>::empty() + shown =~= shown);
        if !state.run_mode {
            assert(end == take_up(state, index + 1, shown));
            lemma_takes_up(state, index + 1, shown);
        }
    }
}

/// What was unmounted is mounted anew. What could not be unmounted or mounted is told. When
/// nothing is left to be run for a mount point, the run goes on where it was.
pub proof fn law_commands_are_followed_up(
    state: SessionState,
    job: MountJob<Seq<char>>,
    resume: Resume,
    success: bool,
)
    requires
        is_session(state),
        state.phase == (Phase::Mounting { job, resume }),
    ensures
        ({
            let (next, reply) = stepped(state, Event::Exited { success });
            let failed = match job {
                MountJob::Unmounting { mount, .. } => "Couldn't unmount '"@ + mount + "'"@,
                MountJob::Mounting { mount } => "Couldn't mount '"@ + mount + "'!"@,
                MountJob::Done { .. } => Seq::empty(),
            };
            let told = if success {
                Seq::empty()
            } else {
                seq![warns(failed)]
            };
            match job {
                MountJob::Unmounting { mount, blkdev, sv } if success => {
                    &&& reply.action == Action::<Seq<char>, Seq<Seq<char>>>::Run(
                        seq!["mount"@, "-o"@, "ro,subvol="@ + sv, blkdev, mount],
                    )
                    &&& reply.messages.len() == 0
                    &&& next == SessionState {
                        phase: Phase::Mounting { job: MountJob::Mounting { mount }, resume },
                        ..state
                    }
                },
                _ => match resume {
                    Resume::Lines => {
                        &&& next == SessionState { phase: Phase::Lines, ..state }
                        &&& reply.action is NextLine
                        &&& reply.messages == told
                    },
                    Resume::Fresh { index } => takes_up(state, index as int, told, next, reply),
                },
            }
        }),
{
    if let Resume::Fresh { index } = resume {
        lemma_takes_up(state, index as int, job_messages(job, success));
    }
}

/// What a reply asks for is what the session waits for then, and after the end it waits for
/// nothing.
pub proof fn law_replies_can_be_answered(state: SessionState, event: EventView, answer: EventView)
    requires
        awaits(state.phase, event),
    ensures
        awaits(stepped(state, event).0.phase, answer) <==> match stepped(state, event).1.action {
            Action::NextLine => answer is Line || answer is EndOfLines,
            Action::Show(_) => answer is Shown,
            Action::Glob(_) => answer is Entry || answer is EndOfEntries,
            Action::NextEntry => answer is Entry || answer is EndOfEntries,
            Action::Run(_) => answer is Exited,
            Action::Finish => false,
            Action::Fail(_) => false,
            Action::PrefixTooLong => false,
        },
{
}

/// Where a prefix is too long to be searched for, the run ends and tells nothing.
pub proof fn law_giving_up_tells_nothing(state: SessionState, event: EventView)
    ensures
        gave_up(state).0 == (SessionState { phase: Phase::Finished, ..state }),
        gave_up(state).1.action is PrefixTooLong,
        gave_up(state).1.messages.len() == 0,
        !awaits(gave_up(state).0.phase, event),
{
}

} // verus!
