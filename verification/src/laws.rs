//! What holds of every run of the program.

use crate::config::{ConfigEntry, Entries};
use crate::error::BtramError;
use crate::latest::{consider_all, found, has_clean, law_latest_is_greatest, law_search_stays};
use crate::latest::{glob_of, Considered, LatestSearch};
use crate::mounts::{mount_fields, subvol_of};
use crate::pattern::{captures_of, is_digit, is_one_line, is_timestamp, nested_path_match};
use crate::pattern::{numbered_name_match, snapshot_match, snapshot_pattern};
use crate::pattern::{MOUNT_LINE, NESTED_PATH, NUMBERED_NAME};
use crate::process::{roots_after, searched_decision, Course, RootMaps};
use crate::remount::{mount_command, umount_command, MountJob};
use crate::series::{candidate_of, is_plain_prefix, lemma_candidate_is_named_so};
use crate::series::{lemma_path_tells_series, snapshot_name, snapshot_path};
use crate::session::{awaits, begun, is_session, lemma_marked, lemma_next_pending};
use crate::session::{lemma_step_keeps_session, stepped, Action, Event, EventView, Phase};
use crate::session::{ReplyView, Resume, SessionState, Task};
use crate::subvol::{impurity, shown_info, subvol_path, SubvolInfo};
use crate::table::{lemma_lookup_put, lookup};
use crate::text::{lemma_precedes_after, precedes};
use vstd::prelude::*;

verus! {

/// The state of a session after a series of events.
pub open spec fn after(state: SessionState, events: Seq<EventView>) -> SessionState
    decreases events.len(),
{
    if events.len() == 0 {
        state
    } else {
        stepped(after(state, events.drop_last()), events.last()).0
    }
}

/// The reply to the last of a series of events.
pub open spec fn last_reply(state: SessionState, events: Seq<EventView>) -> ReplyView
    recommends
        events.len() > 0,
{
    stepped(after(state, events.drop_last()), events.last()).1
}

/// Whether each event of a series is one that the session waited for.
pub open spec fn is_run(state: SessionState, events: Seq<EventView>) -> bool
    decreases events.len(),
{
    events.len() > 0 ==> {
        &&& is_run(state, events.drop_last())
        &&& awaits(after(state, events.drop_last()).phase, events.last())
    }
}

/// A session keeps its invariant throughout a run.
pub proof fn law_session_stays_valid(state: SessionState, events: Seq<EventView>)
    requires
        is_session(state),
        is_run(state, events),
    ensures
        is_session(after(state, events)),
    decreases events.len(),
{
    if events.len() > 0 {
        law_session_stays_valid(state, events.drop_last());
        lemma_step_keeps_session(after(state, events.drop_last()), events.last());
    }
}

/// Unless commands are to be run, no command that changes a mount is ever asked for.
pub proof fn law_dry_run_changes_nothing(
    entries: Entries,
    verbose: bool,
    events: Seq<EventView>,
)
    requires
        is_run(begun(entries, verbose, false), events),
        events.len() > 0,
    ensures
        !(last_reply(begun(entries, verbose, false), events).action is Run),
{
    lemma_dry_run(begun(entries, verbose, false), events.drop_last());
}

proof fn lemma_dry_run(state: SessionState, events: Seq<EventView>)
    requires
        !state.run_mode,
        !(state.phase is Mounting),
        is_run(state, events),
    ensures
        !after(state, events).run_mode,
        !(after(state, events).phase is Mounting),
    decreases events.len(),
{
    if events.len() > 0 {
        lemma_dry_run(state, events.drop_last());
    }
}

/// Whether details are told makes no difference to what is done.
pub proof fn law_verbose_only_tells(state: SessionState, events: Seq<EventView>, verbose: bool)
    requires
        is_run(state, events),
    ensures
        ({
            let other = SessionState { verbose, ..state };
            &&& is_run(other, events)
            &&& after(other, events) == SessionState { verbose, ..after(state, events) }
            &&& events.len() > 0 ==> last_reply(other, events).action == last_reply(
                state,
                events,
            ).action
        }),
    decreases events.len(),
{
    if events.len() > 0 {
        law_verbose_only_tells(state, events.drop_last(), verbose);
        lemma_verbose_step(after(state, events.drop_last()), events.last(), verbose);
    }
}

proof fn lemma_verbose_step(state: SessionState, event: EventView, verbose: bool)
    requires
        awaits(state.phase, event),
    ensures
        ({
            let other = SessionState { verbose, ..state };
            &&& stepped(other, event).0 == SessionState { verbose, ..stepped(state, event).0 }
            &&& stepped(other, event).1.action == stepped(state, event).1.action
        }),
{
}

/// Each command that changes a mount either unmounts a mount point or mounts a
/// subvolume read-only.
pub proof fn law_mounts_are_read_only(state: SessionState, event: EventView)
    requires
        awaits(state.phase, event),
    ensures
        stepped(state, event).1.action matches Action::Run(argv) ==> {
            ||| exists|mount: Seq<char>| argv == #[trigger] umount_command(mount)
            ||| exists|mount: Seq<char>, blkdev: Seq<char>, sv: Seq<char>|
                argv == #[trigger] mount_command(mount, blkdev, sv)
        },
{
}

/// Nothing is mounted over what could not be unmounted: the session goes on with the
/// next line of the mount table.
pub proof fn law_failed_unmount_ends_the_matter(state: SessionState, event: EventView)
    requires
        is_session(state),
        state.phase matches Phase::Mounting { job, .. } && job is Unmounting,
        event == (Event::<Seq<char>, Seq<u8>>::Exited { success: false }),
    ensures
        stepped(state, event).0 == (SessionState { phase: Phase::Lines, ..state }),
        stepped(state, event).1.action is NextLine,
{
}

/// What was unmounted is mounted anew, from the same device on the same mount point.
pub proof fn law_unmounted_is_remounted(
    state: SessionState,
    mount: Seq<char>,
    blkdev: Seq<char>,
    sv: Seq<char>,
    resume: Resume,
)
    requires
        state.phase == (Phase::Mounting {
            job: MountJob::Unmounting { mount, blkdev, sv },
            resume,
        }),
    ensures
        stepped(state, Event::Exited { success: true }).1.action == Action::<
            Seq<char>,
            Seq<Seq<char>>,
        >::Run(mount_command(mount, blkdev, sv)),
{
}

/// Whether a line of the mount table is not a mount of btrfs.
pub open spec fn is_foreign(line: Seq<char>) -> bool {
    mount_fields(captures_of(MOUNT_LINE@, line)) matches Some(m) ==> m.fstype != "btrfs"@
}

/// A line of the mount table that is not a mount of btrfs has no effect.
pub proof fn law_other_file_systems_are_ignored(state: SessionState, line: Seq<char>)
    requires
        state.phase is Lines,
        is_foreign(line),
    ensures
        stepped(state, Event::Line(line)) == (
            state,
            ReplyView { action: Action::NextLine, messages: Seq::empty() },
        ),
{
}

/// Whether an event is a line that is not a mount of btrfs.
pub open spec fn is_foreign_line(event: EventView) -> bool {
    event matches Event::Line(line) && is_foreign(line)
}

/// The events without the lines that are not mounts of btrfs.
pub open spec fn without_foreign_lines(events: Seq<EventView>) -> Seq<EventView>
    decreases events.len(),
{
    if events.len() == 0 {
        Seq::empty()
    } else if is_foreign_line(events.last()) {
        without_foreign_lines(events.drop_last())
    } else {
        without_foreign_lines(events.drop_last()).push(events.last())
    }
}

/// The lines of the mount table that are not mounts of btrfs make no difference to a run:
/// without them it is a run too, it comes to the same state, and each other event gets the
/// same reply. The reply to such a line tells nothing and asks for the next one.
pub proof fn law_runs_ignore_other_file_systems(state: SessionState, events: Seq<EventView>)
    requires
        is_run(state, events),
    ensures
        is_run(state, without_foreign_lines(events)),
        after(state, without_foreign_lines(events)) == after(state, events),
        events.len() > 0 ==> last_reply(state, events) == if is_foreign_line(events.last()) {
            ReplyView { action: Action::NextLine, messages: Seq::empty() }
        } else {
            last_reply(state, without_foreign_lines(events))
        },
    decreases events.len(),
{
    if events.len() > 0 {
        let before = events.drop_last();
        law_runs_ignore_other_file_systems(state, before);
        if is_foreign_line(events.last()) {
            law_other_file_systems_are_ignored(after(state, before), events.last()->Line_0);
        } else {
            let kept = without_foreign_lines(events);
            assert(kept.drop_last() =~= without_foreign_lines(before));
        }
    }
}

/// Whether each device with a known root has a root with a known device, and the
/// other way round.
pub open spec fn roots_agree(roots: RootMaps) -> bool {
    &&& forall|blkdev: Seq<char>| #[trigger]
        roots.bd2root.contains_key(blkdev) ==> roots.root2bd.contains_key(roots.bd2root[blkdev])
    &&& forall|mount: Seq<char>| #[trigger]
        roots.root2bd.contains_key(mount) ==> roots.bd2root.contains_key(roots.root2bd[mount])
}

/// The two maps of root subvolumes agree throughout a run.
pub proof fn law_roots_agree(
    entries: Entries,
    verbose: bool,
    run_mode: bool,
    events: Seq<EventView>,
)
    requires
        is_run(begun(entries, verbose, run_mode), events),
    ensures
        roots_agree(after(begun(entries, verbose, run_mode), events).roots),
    decreases events.len(),
{
    if events.len() > 0 {
        let before = after(begun(entries, verbose, run_mode), events.drop_last());
        law_roots_agree(entries, verbose, run_mode, events.drop_last());
        lemma_step_keeps_roots(before, events.last());
    } else {
        assert(roots_agree(begun(entries, verbose, run_mode).roots));
    }
}

proof fn lemma_step_keeps_roots(state: SessionState, event: EventView)
    requires
        awaits(state.phase, event),
        roots_agree(state.roots),
    ensures
        roots_agree(stepped(state, event).0.roots),
{
    let next = stepped(state, event).0.roots;
    if let (Phase::Lines, Event::Line(line)) = (state.phase, event) {
        if let Some(m) = mount_fields(captures_of(MOUNT_LINE@, line)) {
            let sv = subvol_of(m.options);
            assert(next == state.roots || next == roots_after(state.roots, m.blkdev, m.mount, sv));
            lemma_insert_keeps_roots(state.roots, m.blkdev, m.mount);
        } else {
            assert(next == state.roots);
        }
    } else {
        assert(next == state.roots);
    }
}

proof fn lemma_insert_keeps_roots(roots: RootMaps, blkdev: Seq<char>, mount: Seq<char>)
    requires
        roots_agree(roots),
    ensures
        roots_agree(
            RootMaps {
                bd2root: roots.bd2root.insert(blkdev, mount),
                root2bd: roots.root2bd.insert(mount, blkdev),
            },
        ),
{
}

/// Whether a configuration differs from an earlier one in nothing but entries that
/// are done by now.
pub open spec fn only_done_since(before: Entries, now: Entries) -> bool {
    &&& now.len() == before.len()
    &&& forall|i: int|
        0 <= i < before.len() ==> {
            &&& (#[trigger] now[i]).0 == before[i].0
            &&& now[i].1 == ConfigEntry { done: now[i].1.done, ..before[i].1 }
            &&& before[i].1.done ==> now[i].1.done
        }
}

/// A run changes nothing of the configuration but that entries become done.
pub proof fn law_configuration_stays(state: SessionState, events: Seq<EventView>)
    requires
        is_session(state),
        is_run(state, events),
    ensures
        only_done_since(state.entries, after(state, events).entries),
    decreases events.len(),
{
    if events.len() > 0 {
        let before = after(state, events.drop_last());
        law_configuration_stays(state, events.drop_last());
        law_session_stays_valid(state, events.drop_last());
        lemma_step_marks_at_most(before, events.last());
        assert(only_done_since(before.entries, after(state, events).entries));
    }
}

proof fn lemma_step_marks_at_most(state: SessionState, event: EventView)
    requires
        is_session(state),
        awaits(state.phase, event),
    ensures
        only_done_since(state.entries, stepped(state, event).0.entries),
{
    if let (Phase::Lines, Event::Line(line)) = (state.phase, event) {
        if let Some(m) = mount_fields(captures_of(MOUNT_LINE@, line)) {
            lemma_marked(state.entries, m.mount);
        }
    }
}

/// A mount point that is looked at because it is mounted is done: nothing else will
/// be mounted there because it was missing.
pub proof fn law_inspected_is_done(state: SessionState, line: Seq<char>)
    requires
        is_session(state),
        state.phase is Lines,
        stepped(state, Event::Line(line)).0.phase is Inspecting,
    ensures
        stepped(state, Event::Line(line)).0.phase matches Phase::Inspecting { mount, .. }
            && (lookup(stepped(state, Event::Line(line)).0.entries, mount) matches Some(entry)
            ==> entry.done),
{
    let m = mount_fields(captures_of(MOUNT_LINE@, line))->0;
    if let Some(entry) = lookup(state.entries, m.mount) {
        lemma_lookup_put(state.entries, m.mount, ConfigEntry { done: true, ..entry }, m.mount);
    }
}

/// The place in the order of the configuration from which on nothing was taken up
/// yet, where a session is past the mount table.
pub open spec fn untouched_from(phase: Phase<Seq<char>>) -> Option<int> {
    match phase {
        Phase::Listing { task: Task::Fresh { index }, .. } => Some(index + 1),
        Phase::Examining { task: Task::Fresh { index }, .. } => Some(index + 1),
        Phase::Mounting { resume: Resume::Fresh { index }, .. } => Some(index as int),
        _ => None,
    }
}

/// Once the mount table has been read, the entries are taken up in order: a step stays
/// with the entry at hand, or goes on to the next one that is not done, or ends when
/// all that are left are done, or fails. None is passed over, and none taken up twice.
pub proof fn law_pending_entries_are_taken_in_order(state: SessionState, event: EventView)
    requires
        is_session(state),
        awaits(state.phase, event),
        untouched_from(state.phase) is Some || (state.phase is Lines && event is EndOfLines),
    ensures
        ({
            let from = if state.phase is Lines {
                0
            } else {
                untouched_from(state.phase)->0
            };
            let next = stepped(state, event).0;
            let action = stepped(state, event).1.action;
            ||| untouched_from(next.phase) == untouched_from(state.phase) && !(action is Glob)
            ||| {
                &&& action is Glob
                &&& untouched_from(next.phase) matches Some(to)
                &&& from < to <= next.entries.len()
                &&& !next.entries[to - 1].1.done
                &&& forall|i: int| from <= i < to - 1 ==> (#[trigger] next.entries[i]).1.done
            }
            ||| {
                &&& action is Finish
                &&& forall|i: int|
                    from <= i < next.entries.len() ==> (#[trigger] next.entries[i]).1.done
            }
            ||| action is Fail
        }),
{
    let from = if state.phase is Lines {
        0
    } else {
        untouched_from(state.phase)->0
    };
    lemma_next_pending(state.entries, from);
}

/// What was reported of the paths of a series: the file name of each, and what
/// `btrfs subvolume show` wrote where it was asked.
pub type Listed = Seq<(Seq<char>, Seq<u8>)>;

/// The session after one path was reported and, where it asked, described.
pub open spec fn path_reported(state: SessionState, file_name: Seq<char>, stdout: Seq<u8>) -> SessionState {
    let next = stepped(state, Event::Entry(file_name)).0;
    if next.phase is Examining {
        stepped(next, Event::Shown { success: true, stdout }).0
    } else {
        next
    }
}

/// The session after all the given paths were reported.
pub open spec fn paths_reported(state: SessionState, listed: Listed) -> SessionState
    decreases listed.len(),
{
    if listed.len() == 0 {
        state
    } else {
        path_reported(
            paths_reported(state, listed.drop_last()),
            listed.last().0,
            listed.last().1,
        )
    }
}

/// The description of a snapshot of a series.
pub open spec fn description(
    search: LatestSearch<Seq<char>>,
    candidate: Seq<char>,
    stdout: Seq<u8>,
) -> Result<SubvolInfo<Seq<char>>, BtramError<Seq<char>>> {
    shown_info(search.root_mount, subvol_path(search.ssdir, candidate), true, stdout)
}

/// Whether the description of each snapshot among the paths can be read.
pub open spec fn all_readable(search: LatestSearch<Seq<char>>, listed: Listed) -> bool {
    forall|i: int|
        0 <= i < listed.len() ==> (candidate_of(search.prefix, (#[trigger] listed[i]).0) matches Some(
            candidate,
        ) ==> description(search, candidate, listed[i].1) is Ok)
}

/// The snapshots of the series among the paths, with their descriptions.
pub open spec fn snapshots_in(search: LatestSearch<Seq<char>>, listed: Listed) -> Considered
    decreases listed.len(),
{
    if listed.len() == 0 {
        Seq::empty()
    } else {
        let before = snapshots_in(search, listed.drop_last());
        match candidate_of(search.prefix, listed.last().0) {
            Some(candidate) => before.push(
                (candidate, description(search, candidate, listed.last().1)->Ok_0),
            ),
            None => before,
        }
    }
}

/// A session that searches considers each snapshot of the series among the paths that
/// are reported to it, and nothing else.
pub proof fn law_search_considers_the_series(
    state: SessionState,
    search: LatestSearch<Seq<char>>,
    task: Task<Seq<char>>,
    listed: Listed,
)
    requires
        state.phase == (Phase::Listing { search, task }),
        all_readable(search, listed),
    ensures
        paths_reported(state, listed) == (SessionState {
            phase: Phase::Listing {
                search: consider_all(search, snapshots_in(search, listed)),
                task,
            },
            ..state
        }),
    decreases listed.len(),
{
    if listed.len() > 0 {
        let before = listed.drop_last();
        assert forall|i: int| 0 <= i < before.len() implies (candidate_of(
            search.prefix,
            (#[trigger] before[i]).0,
        ) matches Some(candidate) ==> description(search, candidate, before[i].1) is Ok) by {
            assert(before[i] == listed[i]);
        }
        law_search_considers_the_series(state, search, task, before);
        law_search_stays(search, snapshots_in(search, before));
        assert(listed[listed.len() - 1] == listed.last());
        if let Some(candidate) = candidate_of(search.prefix, listed.last().0) {
            let all = snapshots_in(search, listed);
            assert(all.drop_last() =~= snapshots_in(search, before));
        }
    }
}

/// What a search in a session leads to is the latest clean snapshot of the series among
/// the paths that were reported: a mount is replaced by it, or left alone where it is
/// that snapshot or where there is none.
pub proof fn law_mounts_get_the_latest(
    state: SessionState,
    search: LatestSearch<Seq<char>>,
    blkdev: Seq<char>,
    mount: Seq<char>,
    current: Option<Seq<char>>,
    listed: Listed,
)
    requires
        state.phase == (Phase::Listing { search, task: Task::Replace { blkdev, mount, current } }),
        state.run_mode,
        search.latest is None,
        all_readable(search, listed),
    ensures
        ({
            let snapshots = snapshots_in(search, listed);
            let action = stepped(paths_reported(state, listed), Event::EndOfEntries).1.action;
            let next = stepped(paths_reported(state, listed), Event::EndOfEntries).0;
            ||| {
                &&& action is NextLine
                &&& forall|name: Seq<char>| !has_clean(snapshots, name)
            }
            ||| exists|latest: Seq<char>|
                {
                    &&& #[trigger] has_clean(snapshots, latest)
                    &&& forall|name: Seq<char>| #[trigger]
                        has_clean(snapshots, name) ==> name == latest || precedes(name, latest)
                    &&& if current == Some(subvol_path(search.ssdir, latest)) {
                        action is NextLine
                    } else {
                        &&& action == Action::<Seq<char>, Seq<Seq<char>>>::Run(
                            umount_command(mount),
                        )
                        &&& next.phase == Phase::Mounting {
                            job: MountJob::Unmounting {
                                mount,
                                blkdev,
                                sv: subvol_path(search.ssdir, latest),
                            },
                            resume: Resume::Lines,
                        }
                    }
                }
        }),
{
    let task = Task::Replace { blkdev, mount, current };
    let snapshots = snapshots_in(search, listed);
    law_search_considers_the_series(state, search, task, listed);
    law_search_stays(search, snapshots);
    law_latest_is_greatest(search, snapshots);
    if let Some(latest) = consider_all(search, snapshots).latest {
        assert(has_clean(snapshots, latest));
    }
}

/// An entry of the configuration that was not found mounted gets the latest clean
/// snapshot of its series among the paths that were reported, from the device whose root
/// is mounted where the entry says. Nothing is unmounted for it.
pub proof fn law_missing_mounts_get_the_latest(
    state: SessionState,
    search: LatestSearch<Seq<char>>,
    index: usize,
    listed: Listed,
)
    requires
        is_session(state),
        state.phase == (Phase::Listing { search, task: Task::Fresh { index } }),
        state.run_mode,
        search.latest is None,
        all_readable(search, listed),
        state.roots.root2bd.contains_key(search.root_mount),
        exists|name: Seq<char>| has_clean(snapshots_in(search, listed), name),
    ensures
        ({
            let snapshots = snapshots_in(search, listed);
            let action = stepped(paths_reported(state, listed), Event::EndOfEntries).1.action;
            exists|latest: Seq<char>|
                {
                    &&& #[trigger] has_clean(snapshots, latest)
                    &&& forall|name: Seq<char>| #[trigger]
                        has_clean(snapshots, name) ==> name == latest || precedes(name, latest)
                    &&& action == Action::<Seq<char>, Seq<Seq<char>>>::Run(
                        mount_command(
                            state.entries[index as int].0,
                            state.roots.root2bd[search.root_mount],
                            subvol_path(search.ssdir, latest),
                        ),
                    )
                }
        }),
{
    let task = Task::Fresh { index };
    let snapshots = snapshots_in(search, listed);
    law_search_considers_the_series(state, search, task, listed);
    law_search_stays(search, snapshots);
    law_latest_is_greatest(search, snapshots);
    let latest = consider_all(search, snapshots).latest->0;
    assert(has_clean(snapshots, latest));
}

/// A clean snapshot that is mounted and among the reported paths is only ever replaced
/// by a later one.
pub proof fn law_no_step_back(
    search: LatestSearch<Seq<char>>,
    mount: Seq<char>,
    name: Seq<char>,
    snapshots: Considered,
)
    requires
        search.latest is None,
        has_clean(snapshots, name),
    ensures
        ({
            let current = Some(subvol_path(search.ssdir, name));
            match searched_decision(mount, consider_all(search, snapshots), current).course {
                Course::Leave => consider_all(search, snapshots).latest == Some(name),
                Course::Replace { sv } => exists|latest: Seq<char>|
                    {
                        &&& sv == #[trigger] subvol_path(search.ssdir, latest)
                        &&& precedes(name, latest)
                        &&& has_clean(snapshots, latest)
                    },
                _ => false,
            }
        }),
{
    law_search_stays(search, snapshots);
    law_latest_is_greatest(search, snapshots);
    let latest = consider_all(search, snapshots).latest->0;
    lemma_path_injective(search.ssdir, name, latest);
}

proof fn lemma_path_injective(dir: Seq<char>, a: Seq<char>, b: Seq<char>)
    ensures
        subvol_path(dir, a) == subvol_path(dir, b) ==> a == b,
{
    let n = (dir + "/"@).len() as int;
    assert(a =~= subvol_path(dir, a).skip(n));
    assert(b =~= subvol_path(dir, b).skip(n));
}

/// Whether the pattern of a series captures of each of the paths what `snapshot_match`
/// says.
pub open spec fn all_matched(prefix: Seq<char>, listed: Listed) -> bool {
    forall|i: int|
        0 <= i < listed.len() ==> snapshot_match(
            prefix,
            (#[trigger] listed[i]).0,
            captures_of(snapshot_pattern(prefix), listed[i].0),
        )
}

/// The snapshots among the paths are those that are called by the prefix, a dot and a
/// timestamp.
proof fn lemma_snapshots_in(search: LatestSearch<Seq<char>>, listed: Listed)
    requires
        all_matched(search.prefix, listed),
    ensures
        forall|k: int|
            0 <= k < snapshots_in(search, listed).len() ==> exists|timestamp: Seq<char>|
                is_timestamp(timestamp) && (#[trigger] snapshots_in(search, listed)[k]).0
                    == #[trigger] snapshot_name(search.prefix, timestamp),
        forall|i: int, timestamp: Seq<char>|
            0 <= i < listed.len() && is_timestamp(timestamp) && (#[trigger] listed[i]).0
                == #[trigger] snapshot_name(search.prefix, timestamp) ==> snapshots_in(
                search,
                listed,
            ).contains((listed[i].0, description(search, listed[i].0, listed[i].1)->Ok_0)),
    decreases listed.len(),
{
    if listed.len() > 0 {
        let before = listed.drop_last();
        let fewer = snapshots_in(search, before);
        let all = snapshots_in(search, listed);
        let n = listed.len() - 1;
        assert forall|i: int| 0 <= i < before.len() implies snapshot_match(
            search.prefix,
            (#[trigger] before[i]).0,
            captures_of(snapshot_pattern(search.prefix), before[i].0),
        ) by {
            assert(before[i] == listed[i]);
        }
        lemma_snapshots_in(search, before);
        assert(listed[n] == listed.last());
        lemma_candidate_is_named_so(search.prefix, listed.last().0);
        assert forall|k: int| 0 <= k < all.len() implies exists|timestamp: Seq<char>|
            is_timestamp(timestamp) && (#[trigger] all[k]).0 == #[trigger] snapshot_name(
                search.prefix,
                timestamp,
            ) by {
            if k < fewer.len() {
                assert(all[k] == fewer[k]);
            }
        }
        assert forall|i: int, timestamp: Seq<char>|
            0 <= i < listed.len() && is_timestamp(timestamp) && (#[trigger] listed[i]).0
                == #[trigger] snapshot_name(search.prefix, timestamp) implies all.contains(
            (listed[i].0, description(search, listed[i].0, listed[i].1)->Ok_0),
        ) by {
            let wanted = (listed[i].0, description(search, listed[i].0, listed[i].1)->Ok_0);
            if i < n {
                assert(before[i] == listed[i]);
                assert(fewer.contains(wanted));
                let k = choose|k: int| 0 <= k < fewer.len() && fewer[k] == wanted;
                assert(all[k] == wanted);
            } else {
                assert(all[all.len() - 1] == wanted);
            }
        }
    }
}

/// A clean snapshot that is mounted, and listed with its series and the same description,
/// is replaced by nothing but a clean snapshot of its series that comes after it in the
/// order of texts; where none does, it is left alone. What the patterns capture is as
/// `find_series` and `find_candidate` tell of every path.
pub proof fn law_replacements_are_later(
    state: SessionState,
    blkdev: Seq<char>,
    mount: Seq<char>,
    root_mount: Seq<char>,
    dir: Seq<char>,
    prefix: Seq<char>,
    timestamp: Seq<char>,
    stdout: Seq<u8>,
    listed: Listed,
)
    requires
        state.run_mode,
        state.phase == (Phase::Inspecting {
            blkdev,
            mount,
            root_mount,
            sv: snapshot_path(dir, prefix, timestamp),
        }),
        is_one_line(dir),
        is_plain_prefix(prefix),
        is_timestamp(timestamp),
        is_digit(timestamp[0]),
        nested_path_match(
            snapshot_path(dir, prefix, timestamp),
            captures_of(NESTED_PATH@, snapshot_path(dir, prefix, timestamp)),
        ),
        numbered_name_match(
            snapshot_name(prefix, timestamp),
            captures_of(NUMBERED_NAME@, snapshot_name(prefix, timestamp)),
        ),
        all_matched(prefix, listed),
        shown_info(root_mount, snapshot_path(dir, prefix, timestamp), true, stdout) matches Ok(info)
            && impurity(info) is None,
        all_readable(LatestSearch { root_mount, ssdir: dir, prefix, latest: None }, listed),
        listed.contains((snapshot_name(prefix, timestamp), stdout)),
    ensures
        ({
            let current = snapshot_path(dir, prefix, timestamp);
            let search = LatestSearch { root_mount, ssdir: dir, prefix, latest: None };
            let snapshots = snapshots_in(search, listed);
            let looked = stepped(state, Event::Shown { success: true, stdout });
            let end = stepped(paths_reported(looked.0, listed), Event::EndOfEntries);
            &&& looked.1.action == Action::<Seq<char>, Seq<Seq<char>>>::Glob(glob_of(search))
            &&& {
                ||| {
                    &&& end.1.action is NextLine
                    &&& forall|name: Seq<char>| #[trigger]
                        has_clean(snapshots, name) ==> name == snapshot_name(prefix, timestamp)
                            || precedes(name, snapshot_name(prefix, timestamp))
                }
                ||| exists|later: Seq<char>|
                    {
                        let sv = #[trigger] snapshot_path(dir, prefix, later);
                        &&& is_timestamp(later)
                        &&& has_clean(snapshots, snapshot_name(prefix, later))
                        &&& precedes(current, sv)
                        &&& end.1.action == Action::<Seq<char>, Seq<Seq<char>>>::Run(
                            umount_command(mount),
                        )
                        &&& end.0.phase == Phase::Mounting {
                            job: MountJob::Unmounting { mount, blkdev, sv },
                            resume: Resume::Lines,
                        }
                    }
            }
        }),
{
    let name = snapshot_name(prefix, timestamp);
    let current = snapshot_path(dir, prefix, timestamp);
    let search = LatestSearch { root_mount, ssdir: dir, prefix, latest: None };
    let snapshots = snapshots_in(search, listed);
    let looked = stepped(state, Event::Shown { success: true, stdout });
    reveal_strlit("/");
    assert("/"@ =~= seq!['/']);
    assert(current == subvol_path(dir, name));
    lemma_path_tells_series(dir, prefix, timestamp);
    lemma_snapshots_in(search, listed);
    let at = choose|i: int| 0 <= i < listed.len() && listed[i] == (name, stdout);
    assert(listed[at].0 == snapshot_name(prefix, timestamp));
    let k = choose|k: int|
        0 <= k < snapshots.len() && snapshots[k] == (
            name,
            description(search, name, stdout)->Ok_0,
        );
    assert(snapshots[k].0 == name && impurity(snapshots[k].1) is None);
    assert(has_clean(snapshots, name));
    law_search_considers_the_series(
        looked.0,
        search,
        Task::Replace { blkdev, mount, current: Some(current) },
        listed,
    );
    law_search_stays(search, snapshots);
    law_latest_is_greatest(search, snapshots);
    let latest = consider_all(search, snapshots).latest->0;
    lemma_path_injective(dir, name, latest);
    if latest != name {
        let j = choose|j: int|
            0 <= j < snapshots.len() && (#[trigger] snapshots[j]).0 == latest && impurity(
                snapshots[j].1,
            ) is None;
        assert(snapshots[j].0 == latest);
        let later = choose|later: Seq<char>|
            is_timestamp(later) && snapshots[j].0 == #[trigger] snapshot_name(prefix, later);
        assert(snapshot_path(dir, prefix, later) == subvol_path(dir, latest));
        lemma_precedes_after(dir + seq!['/'], name, latest);
    }
}

/// What a mount was just replaced by is left alone by the next run, where nothing new
/// has come: the session asks for the next line and tells nothing.
pub proof fn law_latest_is_left_alone(
    state: SessionState,
    search: LatestSearch<Seq<char>>,
    blkdev: Seq<char>,
    mount: Seq<char>,
    sv: Seq<char>,
)
    requires
        state.phase == (Phase::Listing {
            search,
            task: Task::Replace { blkdev, mount, current: Some(sv) },
        }),
        found(search) == Some(sv),
    ensures
        stepped(state, Event::EndOfEntries) == (
            SessionState { phase: Phase::Lines, ..state },
            ReplyView { action: Action::NextLine, messages: Seq::empty() },
        ),
{
}

} // verus!
