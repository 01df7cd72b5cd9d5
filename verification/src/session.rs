//! A whole run as a state machine. The session decides; its caller reads the mount
//! table, lists paths and runs commands, and reports back what came of it.

use crate::config::{ConfigEntry, Entries};
use crate::error::BtramError;
use crate::latest::{consideration, considered, find_latest, found, glob_of, search_begun};
use crate::latest::LatestSearch;
use crate::message::{Message, Stream};
use crate::mounts::{mount_fields, parse_mount, subvol_of};
use crate::pattern::{captures_of, is_timestamp, snapshot_match, snapshot_pattern};
use crate::pattern::{MOUNT_LINE, PREFIX_LIMIT};
use crate::process::{entries_after, first_decision, inspected_decision, marked, roots_after};
use crate::process::{err, out, searched_decision, Course, Decision, DecisionView, RootMaps, Roots};
use crate::process::{process_inspection, process_mount, process_search};
use crate::remount::{echoes, job_begun, job_continued, job_messages, mount_subvol};
use crate::remount::{Argv, MountJob};
use crate::series::{candidate_of, find_candidate, snapshot_name};
use crate::subvol::{path_of, shown_info, subvol_path, sv_info};
use crate::table::{keys_differ, lemma_lookup_finds, lemma_lookup_unique, lookup, Table};
use crate::text::same_text;
use vstd::prelude::*;

verus! {

/// What a search is for. The text type `T` is `String` in programs and `Seq<char>`
/// in specifications, here and in the types below.
#[derive(Debug, PartialEq, Eq)]
pub enum Task<T = String> {
    /// To replace what is mounted.
    Replace { blkdev: T, mount: T, current: Option<T> },
    /// To mount what the configuration asks for at this place in its order.
    Fresh { index: usize },
}

/// Where a session goes on when nothing is left to be done about a mount point.
#[derive(Debug, Clone, Copy, PartialEq, Eq, Structural)]
pub enum Resume {
    /// With the next line of the mount table.
    Lines,
    /// With the configuration, from this place in its order on.
    Fresh { index: usize },
}

/// What a session waits for.
#[derive(Debug, PartialEq, Eq)]
pub enum Phase<T = String> {
    /// The next line of the mount table.
    Lines,
    /// The description of a mounted subvolume.
    Inspecting { blkdev: T, mount: T, root_mount: T, sv: T },
    /// The next path that may be a snapshot.
    Listing { search: LatestSearch<T>, task: Task<T> },
    /// The description of a snapshot.
    Examining { search: LatestSearch<T>, task: Task<T>, candidate: T },
    /// The end of a command.
    Mounting { job: MountJob<T>, resume: Resume },
    /// Nothing any more.
    Finished,
}

/// What is reported to a session. The type `B` is that of a command's output.
#[derive(Debug, PartialEq, Eq)]
pub enum Event<T = String, B = Vec<u8>> {
    /// A line of the mount table.
    Line(T),
    /// The end of the mount table.
    EndOfLines,
    /// How a `Show` command ended, and what it wrote.
    Shown { success: bool, stdout: B },
    /// The file name of a path that the glob pattern matches.
    Entry(T),
    /// The end of the list of paths.
    EndOfEntries,
    /// How a `Run` command ended.
    Exited { success: bool },
}

/// What a session asks for. The type `V` is that of a command.
#[derive(Debug, PartialEq, Eq)]
pub enum Action<T = String, V = Vec<String>> {
    /// The next line of the mount table.
    NextLine,
    /// To run a command and report what it wrote.
    Show(V),
    /// To list the paths that a glob pattern matches, and the first of them.
    Glob(T),
    /// The next of the listed paths.
    NextEntry,
    /// To run a command.
    Run(V),
    /// To end.
    Finish,
    /// To end with an error.
    Fail(BtramError<T>),
    /// To end because a snapshot prefix is too long to be searched for.
    PrefixTooLong,
}

/// What a session asks for, and what is to be told first.
#[derive(Debug, PartialEq, Eq)]
pub struct Reply {
    pub action: Action,
    pub messages: Vec<Message>,
}

/// A run of the program.
#[derive(Debug)]
pub struct Session {
    config: Table<ConfigEntry>,
    roots: Roots,
    verbose: bool,
    run_mode: bool,
    phase: Phase,
}

/// What a `Session` stands for.
pub ghost struct SessionState {
    pub entries: Entries,
    pub roots: RootMaps,
    pub verbose: bool,
    pub run_mode: bool,
    pub phase: Phase<Seq<char>>,
}

/// What a `Reply` stands for.
pub ghost struct ReplyView {
    pub action: Action<Seq<char>, Argv>,
    pub messages: Seq<Message<Seq<char>>>,
}

/// What an `Event` stands for.
pub type EventView = Event<Seq<char>, Seq<u8>>;

impl DeepView for Task {
    type V = Task<Seq<char>>;

    open spec fn deep_view(&self) -> Task<Seq<char>> {
        match *self {
            Task::Replace { blkdev, mount, current } => Task::Replace {
                blkdev: blkdev@,
                mount: mount@,
                current: current.deep_view(),
            },
            Task::Fresh { index } => Task::Fresh { index },
        }
    }
}

impl DeepView for Phase {
    type V = Phase<Seq<char>>;

    open spec fn deep_view(&self) -> Phase<Seq<char>> {
        match *self {
            Phase::Lines => Phase::Lines,
            Phase::Inspecting { blkdev, mount, root_mount, sv } => Phase::Inspecting {
                blkdev: blkdev@,
                mount: mount@,
                root_mount: root_mount@,
                sv: sv@,
            },
            Phase::Listing { search, task } => Phase::Listing {
                search: search.deep_view(),
                task: task.deep_view(),
            },
            Phase::Examining { search, task, candidate } => Phase::Examining {
                search: search.deep_view(),
                task: task.deep_view(),
                candidate: candidate@,
            },
            Phase::Mounting { job, resume } => Phase::Mounting { job: job.deep_view(), resume },
            Phase::Finished => Phase::Finished,
        }
    }
}

impl DeepView for Event {
    type V = EventView;

    open spec fn deep_view(&self) -> EventView {
        match *self {
            Event::Line(line) => Event::Line(line@),
            Event::EndOfLines => Event::EndOfLines,
            Event::Shown { success, stdout } => Event::Shown { success, stdout: stdout@ },
            Event::Entry(file_name) => Event::Entry(file_name@),
            Event::EndOfEntries => Event::EndOfEntries,
            Event::Exited { success } => Event::Exited { success },
        }
    }
}

impl DeepView for Action {
    type V = Action<Seq<char>, Argv>;

    open spec fn deep_view(&self) -> Action<Seq<char>, Argv> {
        match *self {
            Action::NextLine => Action::NextLine,
            Action::Show(argv) => Action::Show(argv.deep_view()),
            Action::Glob(pattern) => Action::Glob(pattern@),
            Action::NextEntry => Action::NextEntry,
            Action::Run(argv) => Action::Run(argv.deep_view()),
            Action::Finish => Action::Finish,
            Action::Fail(e) => Action::Fail(e.deep_view()),
            Action::PrefixTooLong => Action::PrefixTooLong,
        }
    }
}

impl DeepView for Reply {
    type V = ReplyView;

    open spec fn deep_view(&self) -> ReplyView {
        ReplyView { action: self.action.deep_view(), messages: self.messages.deep_view() }
    }
}

impl DeepView for Session {
    type V = SessionState;

    closed spec fn deep_view(&self) -> SessionState {
        SessionState {
            entries: self.config.pairs(),
            roots: self.roots.deep_view(),
            verbose: self.verbose,
            run_mode: self.run_mode,
            phase: self.phase.deep_view(),
        }
    }
}

/// A state that has a phase, and a reply.
pub open spec fn enter(
    state: SessionState,
    phase: Phase<Seq<char>>,
    action: Action<Seq<char>, Argv>,
    messages: Seq<Message<Seq<char>>>,
) -> (SessionState, ReplyView) {
    (SessionState { phase, ..state }, ReplyView { action, messages })
}

/// The command that describes a subvolume.
pub open spec fn show_command(root_mount: Seq<char>, sv: Seq<char>) -> Argv {
    seq!["btrfs"@, "subvolume"@, "show"@, subvol_path(root_mount, sv)]
}

/// The first entry from a place in the order on that is not done; the number of
/// entries where there is none.
pub open spec fn next_pending(entries: Entries, index: int) -> int
    decreases entries.len() - index,
{
    if index >= entries.len() || !entries[index].1.done {
        index
    } else {
        next_pending(entries, index + 1)
    }
}

pub open spec fn fresh(mount: Seq<char>) -> Message<Seq<char>> {
    out("Mount [fresh]: "@ + mount)
}

pub open spec fn no_device(root_mount: Seq<char>) -> Message<Seq<char>> {
    err("Warning: Could not find block device for root mount "@ + root_mount)
}

pub open spec fn no_snapshots(
    mount: Seq<char>,
    search: LatestSearch<Seq<char>>,
) -> Message<Seq<char>> {
    err("Warning: '"@ + mount + "' has no snapshots '"@ + glob_of(search) + "'"@)
}

/// How a session takes up the entries that are not done, from a place on.
pub open spec fn take_up(
    state: SessionState,
    index: int,
    messages: Seq<Message<Seq<char>>>,
) -> (SessionState, ReplyView) {
    let next = next_pending(state.entries, index);
    if next >= state.entries.len() {
        enter(state, Phase::Finished, Action::Finish, messages)
    } else {
        let (mount, cfg) = state.entries[next];
        match search_begun(cfg.root, cfg.dir, cfg.prefix) {
            Ok(search) => enter(
                state,
                Phase::Listing { search, task: Task::Fresh { index: next as usize } },
                Action::Glob(glob_of(search)),
                messages.push(fresh(mount)),
            ),
            Err(e) => enter(state, Phase::Finished, Action::Fail(e), messages.push(fresh(mount))),
        }
    }
}

/// How a session goes on when nothing is left to be done about a mount point.
pub open spec fn resumed(
    state: SessionState,
    resume: Resume,
    messages: Seq<Message<Seq<char>>>,
) -> (SessionState, ReplyView) {
    match resume {
        Resume::Lines => enter(state, Phase::Lines, Action::NextLine, messages),
        Resume::Fresh { index } => take_up(state, index as int, messages),
    }
}

/// How a session goes on with what is under way on a mount point.
pub open spec fn pursued(
    state: SessionState,
    job: (MountJob<Seq<char>>, Option<Argv>),
    resume: Resume,
    messages: Seq<Message<Seq<char>>>,
) -> (SessionState, ReplyView) {
    match job.1 {
        Some(argv) => enter(
            state,
            Phase::Mounting { job: job.0, resume },
            Action::Run(argv),
            messages,
        ),
        None => resumed(state, resume, messages),
    }
}

/// How a session puts a subvolume on a mount point.
pub open spec fn mounted(
    state: SessionState,
    mount: Seq<char>,
    blkdev: Seq<char>,
    sv: Seq<char>,
    remount: bool,
    resume: Resume,
    messages: Seq<Message<Seq<char>>>,
) -> (SessionState, ReplyView) {
    pursued(
        state,
        job_begun(mount, blkdev, sv, remount, state.run_mode),
        resume,
        messages + echoes(mount, blkdev, sv, remount, state.verbose),
    )
}

/// How a session follows a decision about what is mounted.
pub open spec fn followed(
    state: SessionState,
    blkdev: Seq<char>,
    mount: Seq<char>,
    decision: DecisionView,
) -> (SessionState, ReplyView) {
    match decision.course {
        Course::Leave => resumed(state, Resume::Lines, decision.messages),
        Course::Inspect { root_mount, sv } => enter(
            state,
            Phase::Inspecting { blkdev, mount, root_mount, sv },
            Action::Show(show_command(root_mount, sv)),
            decision.messages,
        ),
        Course::Search { search, current } => enter(
            state,
            Phase::Listing { search, task: Task::Replace { blkdev, mount, current } },
            Action::Glob(glob_of(search)),
            decision.messages,
        ),
        Course::Replace { sv } => mounted(
            state,
            mount,
            blkdev,
            sv,
            true,
            Resume::Lines,
            decision.messages,
        ),
        Course::Fail(e) => enter(state, Phase::Finished, Action::Fail(e), decision.messages),
    }
}

/// How a session takes a line of the mount table: only btrfs is looked at.
pub open spec fn took_line(state: SessionState, line: Seq<char>) -> (SessionState, ReplyView) {
    match mount_fields(captures_of(MOUNT_LINE@, line)) {
        Some(m) => if m.fstype == "btrfs"@ {
            let sv = subvol_of(m.options);
            followed(
                SessionState {
                    roots: roots_after(state.roots, m.blkdev, m.mount, sv),
                    entries: entries_after(state.roots, state.entries, m.blkdev, m.mount, sv),
                    ..state
                },
                m.blkdev,
                m.mount,
                first_decision(state.roots, state.entries, m.blkdev, m.mount, sv),
            )
        } else {
            enter(state, Phase::Lines, Action::NextLine, Seq::empty())
        },
        None => enter(state, Phase::Lines, Action::NextLine, Seq::empty()),
    }
}

/// How a session takes a file name: what is no snapshot of the series is passed
/// over.
pub open spec fn took_entry(
    state: SessionState,
    search: LatestSearch<Seq<char>>,
    task: Task<Seq<char>>,
    file_name: Seq<char>,
) -> (SessionState, ReplyView) {
    match candidate_of(search.prefix, file_name) {
        Some(candidate) => enter(
            state,
            Phase::Examining { search, task, candidate },
            Action::Show(show_command(search.root_mount, subvol_path(search.ssdir, candidate))),
            Seq::empty(),
        ),
        None => enter(
            state,
            Phase::Listing { search, task },
            Action::NextEntry,
            Seq::empty(),
        ),
    }
}

/// How a session ends where the prefix of a series is too long to be searched for:
/// nothing is told.
pub open spec fn gave_up(state: SessionState) -> (SessionState, ReplyView) {
    enter(state, Phase::Finished, Action::PrefixTooLong, Seq::empty())
}

/// How a session takes the description of a snapshot.
pub open spec fn took_snapshot(
    state: SessionState,
    search: LatestSearch<Seq<char>>,
    task: Task<Seq<char>>,
    candidate: Seq<char>,
    success: bool,
    stdout: Seq<u8>,
) -> (SessionState, ReplyView) {
    let sv = subvol_path(search.ssdir, candidate);
    match shown_info(search.root_mount, sv, success, stdout) {
        Ok(info) => enter(
            state,
            Phase::Listing { search: considered(search, candidate, info), task },
            Action::NextEntry,
            match consideration(search, candidate, info) {
                Some(message) => seq![message],
                None => Seq::empty(),
            },
        ),
        Err(e) => enter(state, Phase::Finished, Action::Fail(e), Seq::empty()),
    }
}

/// How a session goes on when a search has ended.
pub open spec fn search_ended(
    state: SessionState,
    search: LatestSearch<Seq<char>>,
    task: Task<Seq<char>>,
) -> (SessionState, ReplyView) {
    match task {
        Task::Replace { blkdev, mount, current } => followed(
            state,
            blkdev,
            mount,
            searched_decision(mount, search, current),
        ),
        Task::Fresh { index } => {
            let mount = state.entries[index as int].0;
            let resume = Resume::Fresh { index: (index + 1) as usize };
            match found(search) {
                Some(sv) => if state.roots.root2bd.contains_key(search.root_mount) {
                    mounted(
                        state,
                        mount,
                        state.roots.root2bd[search.root_mount],
                        sv,
                        false,
                        resume,
                        Seq::empty(),
                    )
                } else {
                    resumed(state, resume, seq![no_device(search.root_mount)])
                },
                None => resumed(state, resume, seq![no_snapshots(mount, search)]),
            }
        },
    }
}

/// Whether a session in this phase waits for such an event.
pub open spec fn awaits(phase: Phase<Seq<char>>, event: EventView) -> bool {
    match phase {
        Phase::Lines => event is Line || event is EndOfLines,
        Phase::Inspecting { .. } => event is Shown,
        Phase::Listing { .. } => event is Entry || event is EndOfEntries,
        Phase::Examining { .. } => event is Shown,
        Phase::Mounting { .. } => event is Exited,
        Phase::Finished => false,
    }
}

/// How a session goes on after an event.
pub open spec fn stepped(state: SessionState, event: EventView) -> (SessionState, ReplyView)
    recommends
        awaits(state.phase, event),
{
    match (state.phase, event) {
        (Phase::Lines, Event::Line(line)) => took_line(state, line),
        (Phase::Lines, Event::EndOfLines) => take_up(state, 0, Seq::empty()),
        (
            Phase::Inspecting { blkdev, mount, root_mount, sv },
            Event::Shown { success, stdout },
        ) => followed(
            state,
            blkdev,
            mount,
            inspected_decision(mount, root_mount, sv, state.verbose, success, stdout),
        ),
        (Phase::Listing { search, task }, Event::Entry(file_name)) => took_entry(
            state,
            search,
            task,
            file_name,
        ),
        (Phase::Listing { search, task }, Event::EndOfEntries) => search_ended(state, search, task),
        (
            Phase::Examining { search, task, candidate },
            Event::Shown { success, stdout },
        ) => took_snapshot(state, search, task, candidate, success, stdout),
        (Phase::Mounting { job, resume }, Event::Exited { success }) => pursued(
            state,
            job_continued(job, success),
            resume,
            job_messages(job, success),
        ),
        _ => enter(state, Phase::Finished, Action::Finish, Seq::empty()),
    }
}

/// The prefix of the series whose paths are listed.
pub open spec fn listed_prefix(phase: Phase<Seq<char>>) -> Seq<char> {
    match phase {
        Phase::Listing { search, .. } => search.prefix,
        _ => Seq::empty(),
    }
}

/// Whether a place in the order of the configuration that a task speaks of exists.
pub open spec fn task_fits(entries: Entries, task: Task<Seq<char>>) -> bool {
    task matches Task::Fresh { index } ==> index < entries.len()
}

/// The invariant of a session: no mount point is configured twice, the places in the
/// order of the configuration that its phase speaks of exist, and only what the
/// mount table shows is ever unmounted.
pub open spec fn is_session(state: SessionState) -> bool {
    &&& keys_differ(state.entries)
    &&& state.entries.len() <= usize::MAX
    &&& match state.phase {
        Phase::Listing { task, .. } => task_fits(state.entries, task),
        Phase::Examining { task, .. } => task_fits(state.entries, task),
        Phase::Mounting { job, resume } => {
            &&& resume matches Resume::Fresh { index } ==> index <= state.entries.len()
            &&& job is Unmounting ==> resume == Resume::Lines
            &&& !(job is Done)
        },
        _ => true,
    }
}

/// The state in which a session begins.
pub open spec fn begun(entries: Entries, verbose: bool, run_mode: bool) -> SessionState {
    SessionState {
        entries,
        roots: RootMaps { bd2root: Map::empty(), root2bd: Map::empty() },
        verbose,
        run_mode,
        phase: Phase::Lines,
    }
}

fn chain(mut first: Vec<Message>, mut second: Vec<Message>) -> (all: Vec<Message>)
    ensures
        all.deep_view() == first.deep_view() + second.deep_view(),
{
    let ghost a = first.deep_view();
    let ghost b = second.deep_view();
    first.append(&mut second);
    assert(first.deep_view() =~= a + b);
    first
}

fn told(message: Message) -> (messages: Vec<Message>)
    ensures
        messages.deep_view() == seq![message.deep_view()],
{
    let messages = vec![message];
    assert(messages.deep_view() =~= seq![message.deep_view()]);
    messages
}

fn nothing_told() -> (messages: Vec<Message>)
    ensures
        messages.deep_view() == Seq::<Message<Seq<char>>>::empty(),
{
    let messages: Vec<Message> = Vec::new();
    assert(messages.deep_view() =~= Seq::empty());
    messages
}

fn show_argv(root_mount: &str, sv: &str) -> (argv: Vec<String>)
    ensures
        argv.deep_view() == show_command(root_mount@, sv@),
{
    let argv = vec![
        "btrfs".to_owned(),
        "subvolume".to_owned(),
        "show".to_owned(),
        path_of(root_mount, sv),
    ];
    assert(argv.deep_view() =~= show_command(root_mount@, sv@));
    argv
}

impl Session {
    /// Begins a run with a configuration. Commands are shown where `verbose` is set,
    /// and run where `run_mode` is set.
    pub fn new(config: Table<ConfigEntry>, verbose: bool, run_mode: bool) -> (session: Self)
        ensures
            session.deep_view() == begun(config.pairs(), verbose, run_mode),
            is_session(session.deep_view()),
    {
        // The call brings in that no mount point is configured twice.
        let _ = config.len();
        let roots = Roots { bd2root: Table::new(), root2bd: Table::new() };
        Session { config, roots, verbose, run_mode, phase: Phase::Lines }
    }

    /// Whether the session waits for such an event.
    pub fn expects(&self, event: &Event) -> (expected: bool)
        ensures
            expected == awaits(self.deep_view().phase, event.deep_view()),
    {
        match (&self.phase, event) {
            (Phase::Lines, Event::Line(_)) => true,
            (Phase::Lines, Event::EndOfLines) => true,
            (Phase::Inspecting { .. }, Event::Shown { .. }) => true,
            (Phase::Listing { .. }, Event::Entry(_)) => true,
            (Phase::Listing { .. }, Event::EndOfEntries) => true,
            (Phase::Examining { .. }, Event::Shown { .. }) => true,
            (Phase::Mounting { .. }, Event::Exited { .. }) => true,
            _ => false,
        }
    }

    fn enter(self, phase: Phase, action: Action, messages: Vec<Message>) -> (step: (Self, Reply))
        ensures
            (step.0.deep_view(), step.1.deep_view()) == enter(
                self.deep_view(),
                phase.deep_view(),
                action.deep_view(),
                messages.deep_view(),
            ),
    {
        let session = Session {
            config: self.config,
            roots: self.roots,
            verbose: self.verbose,
            run_mode: self.run_mode,
            phase,
        };
        (session, Reply { action, messages })
    }

    fn take_up(self, index: usize, messages: Vec<Message>) -> (step: (Self, Reply))
        ensures
            (step.0.deep_view(), step.1.deep_view()) == take_up(
                self.deep_view(),
                index as int,
                messages.deep_view(),
            ),
    {
        let ghost entries = self.deep_view().entries;
        let mut next: usize = index;
        while next < self.config.len() && self.config.entry(next).1.done
            invariant
                entries == self.config.pairs(),
                next_pending(entries, index as int) == next_pending(entries, next as int),
            decreases entries.len() - next,
        {
            next += 1;
        }
        if next >= self.config.len() {
            return self.enter(Phase::Finished, Action::Finish, messages);
        }
        let (mount, cfg) = self.config.entry(next);
        let mut text = "Mount [fresh]: ".to_owned();
        text.append(mount);
        let ghost before = messages.deep_view();
        let messages = chain(messages, told(Message { stream: Stream::Stdout, text }));
        assert(messages.deep_view() =~= before.push(fresh(mount@)));
        match find_latest(cfg.root.as_str(), cfg.dir.as_str(), cfg.prefix.as_str()) {
            Ok(search) => {
                let pattern = search.glob_pattern();
                self.enter(
                    Phase::Listing { search, task: Task::Fresh { index: next } },
                    Action::Glob(pattern),
                    messages,
                )
            },
            Err(e) => self.enter(Phase::Finished, Action::Fail(e), messages),
        }
    }

    fn resume(self, resume: Resume, messages: Vec<Message>) -> (step: (Self, Reply))
        ensures
            (step.0.deep_view(), step.1.deep_view()) == resumed(
                self.deep_view(),
                resume,
                messages.deep_view(),
            ),
    {
        match resume {
            Resume::Lines => self.enter(Phase::Lines, Action::NextLine, messages),
            Resume::Fresh { index } => self.take_up(index, messages),
        }
    }

    fn pursue(
        self,
        job: MountJob,
        command: Option<Vec<String>>,
        resume: Resume,
        messages: Vec<Message>,
    ) -> (step: (Self, Reply))
        ensures
            (step.0.deep_view(), step.1.deep_view()) == pursued(
                self.deep_view(),
                (job.deep_view(), command.deep_view()),
                resume,
                messages.deep_view(),
            ),
    {
        match command {
            Some(argv) => self.enter(
                Phase::Mounting { job, resume },
                Action::Run(argv),
                messages,
            ),
            None => self.resume(resume, messages),
        }
    }

    fn mount(
        self,
        mount: &str,
        blkdev: &str,
        sv: &str,
        remount: bool,
        resume: Resume,
        messages: Vec<Message>,
    ) -> (step: (Self, Reply))
        ensures
            (step.0.deep_view(), step.1.deep_view()) == mounted(
                self.deep_view(),
                mount@,
                blkdev@,
                sv@,
                remount,
                resume,
                messages.deep_view(),
            ),
    {
        let begun = mount_subvol(mount, blkdev, sv, remount, self.verbose, self.run_mode);
        self.pursue(begun.job, begun.command, resume, chain(messages, begun.messages))
    }

    fn follow(self, blkdev: String, mount: String, decision: Decision) -> (step: (Self, Reply))
        ensures
            (step.0.deep_view(), step.1.deep_view()) == followed(
                self.deep_view(),
                blkdev@,
                mount@,
                decision.deep_view(),
            ),
    {
        let messages = decision.messages;
        match decision.course {
            Course::Leave => self.resume(Resume::Lines, messages),
            Course::Inspect { root_mount, sv } => {
                let argv = show_argv(root_mount.as_str(), sv.as_str());
                self.enter(
                    Phase::Inspecting { blkdev, mount, root_mount, sv },
                    Action::Show(argv),
                    messages,
                )
            },
            Course::Search { search, current } => {
                let pattern = search.glob_pattern();
                self.enter(
                    Phase::Listing { search, task: Task::Replace { blkdev, mount, current } },
                    Action::Glob(pattern),
                    messages,
                )
            },
            Course::Replace { sv } => self.mount(
                mount.as_str(),
                blkdev.as_str(),
                sv.as_str(),
                true,
                Resume::Lines,
                messages,
            ),
            Course::Fail(e) => self.enter(Phase::Finished, Action::Fail(e), messages),
        }
    }

    fn take_line(self, line: &str) -> (step: (Self, Reply))
        ensures
            (step.0.deep_view(), step.1.deep_view()) == took_line(self.deep_view(), line@),
    {
        match parse_mount(line) {
            Some(m) => {
                if same_text(m.fstype.as_str(), "btrfs") {
                    let mut roots = self.roots;
                    let mut config = self.config;
                    let decision = process_mount(
                        m.blkdev.as_str(),
                        m.mount.as_str(),
                        m.subvol(),
                        &mut roots,
                        &mut config,
                    );
                    let session = Session {
                        config,
                        roots,
                        verbose: self.verbose,
                        run_mode: self.run_mode,
                        phase: self.phase,
                    };
                    session.follow(m.blkdev, m.mount, decision)
                } else {
                    self.enter(Phase::Lines, Action::NextLine, nothing_told())
                }
            },
            None => self.enter(Phase::Lines, Action::NextLine, nothing_told()),
        }
    }

    fn take_entry(self, search: LatestSearch, task: Task, file_name: &str) -> (step: (Self, Reply))
        ensures
            step.1.action is PrefixTooLong ==> search.deep_view().prefix.len() > PREFIX_LIMIT && (
            step.0.deep_view(), step.1.deep_view()) == gave_up(self.deep_view()),
            !(step.1.action is PrefixTooLong) ==> (step.0.deep_view(), step.1.deep_view())
                == took_entry(self.deep_view(), search.deep_view(), task.deep_view(), file_name@),
            !(step.1.action is PrefixTooLong) ==> snapshot_match(
                search.deep_view().prefix,
                file_name@,
                captures_of(snapshot_pattern(search.deep_view().prefix), file_name@),
            ),
            step.0.deep_view().phase matches Phase::Examining { candidate, .. } ==> candidate
                == file_name@,
            step.1.action is NextEntry ==> forall|timestamp: Seq<char>|
                is_timestamp(timestamp) ==> file_name@ != #[trigger] snapshot_name(
                    search.deep_view().prefix,
                    timestamp,
                ),
    {
        match find_candidate(search.prefix.as_str(), file_name) {
            Ok(Some(candidate)) => {
                let sv = path_of(search.ssdir.as_str(), candidate.as_str());
                let argv = show_argv(search.root_mount.as_str(), sv.as_str());
                self.enter(
                    Phase::Examining { search, task, candidate },
                    Action::Show(argv),
                    nothing_told(),
                )
            },
            Ok(None) => self.enter(
                Phase::Listing { search, task },
                Action::NextEntry,
                nothing_told(),
            ),
            Err(_) => self.enter(Phase::Finished, Action::PrefixTooLong, nothing_told()),
        }
    }

    fn take_snapshot(
        self,
        search: LatestSearch,
        task: Task,
        candidate: String,
        success: bool,
        stdout: Vec<u8>,
    ) -> (step: (Self, Reply))
        ensures
            (step.0.deep_view(), step.1.deep_view()) == took_snapshot(
                self.deep_view(),
                search.deep_view(),
                task.deep_view(),
                candidate@,
                success,
                stdout@,
            ),
    {
        let mut search = search;
        let sv = path_of(search.ssdir.as_str(), candidate.as_str());
        match sv_info(search.root_mount.as_str(), sv.as_str(), success, stdout) {
            Ok(info) => {
                let messages = match search.consider(candidate, &info) {
                    Some(message) => told(message),
                    None => nothing_told(),
                };
                self.enter(Phase::Listing { search, task }, Action::NextEntry, messages)
            },
            Err(e) => self.enter(Phase::Finished, Action::Fail(e), nothing_told()),
        }
    }

    fn end_search(self, search: LatestSearch, task: Task) -> (step: (Self, Reply))
        requires
            task_fits(self.deep_view().entries, task.deep_view()),
            self.deep_view().entries.len() <= usize::MAX,
        ensures
            (step.0.deep_view(), step.1.deep_view()) == search_ended(
                self.deep_view(),
                search.deep_view(),
                task.deep_view(),
            ),
    {
        match task {
            Task::Replace { blkdev, mount, current } => {
                let decision = process_search(mount.as_str(), &search, &current);
                self.follow(blkdev, mount, decision)
            },
            Task::Fresh { index } => {
                let mount = self.config.entry(index).0.to_owned();
                let resume = Resume::Fresh { index: index + 1 };
                match search.result() {
                    Some(sv) => {
                        let device = match self.roots.root2bd.get(search.root_mount.as_str()) {
                            Some(blkdev) => Some(blkdev.clone()),
                            None => None,
                        };
                        match device {
                            Some(blkdev) => self.mount(
                                mount.as_str(),
                                blkdev.as_str(),
                                sv.as_str(),
                                false,
                                resume,
                                nothing_told(),
                            ),
                            None => {
                                let mut text =
                                    "Warning: Could not find block device for root mount ".to_owned();
                                text.append(search.root_mount.as_str());
                                self.resume(
                                    resume,
                                    told(Message { stream: Stream::Stderr, text }),
                                )
                            },
                        }
                    },
                    None => {
                        let mut text = "Warning: '".to_owned();
                        text.append(mount.as_str());
                        text.append("' has no snapshots '");
                        text.append(search.glob_pattern().as_str());
                        text.append("'");
                        self.resume(resume, told(Message { stream: Stream::Stderr, text }))
                    },
                }
            },
        }
    }

    /// Takes what was reported and says what is to be done next.
    pub fn step(self, event: Event) -> (step: (Self, Reply))
        requires
            is_session(self.deep_view()),
            awaits(self.deep_view().phase, event.deep_view()),
        ensures
            is_session(step.0.deep_view()),
            !(step.1.action is PrefixTooLong) ==> (step.0.deep_view(), step.1.deep_view())
                == stepped(self.deep_view(), event.deep_view()),
            // A prefix that is too long to be searched for ends the run.
            step.1.action is PrefixTooLong ==> {
                &&& event is Entry
                &&& self.deep_view().phase matches Phase::Listing { search, .. }
                &&& search.prefix.len() > PREFIX_LIMIT
                &&& (step.0.deep_view(), step.1.deep_view()) == gave_up(self.deep_view())
            },
            // What is looked at is what was reported, and no snapshot is passed over.
            event.deep_view() matches Event::Entry(file_name) ==> {
                &&& !(step.1.action is PrefixTooLong) ==> snapshot_match(
                    listed_prefix(self.deep_view().phase),
                    file_name,
                    captures_of(snapshot_pattern(listed_prefix(self.deep_view().phase)), file_name),
                )
                &&& step.0.deep_view().phase matches Phase::Examining { candidate, .. } ==> candidate
                    == file_name
                &&& step.1.action is NextEntry ==> forall|timestamp: Seq<char>|
                    is_timestamp(timestamp) ==> file_name != #[trigger] snapshot_name(
                        listed_prefix(self.deep_view().phase),
                        timestamp,
                    )
            },
    {
        let ghost state = self.deep_view();
        let ghost report = event.deep_view();
        proof {
            lemma_step_keeps_session(state, report);
        }
        let Session { config, roots, verbose, run_mode, phase } = self;
        let session = Session { config, roots, verbose, run_mode, phase: Phase::Finished };
        match (phase, event) {
            (Phase::Lines, Event::Line(line)) => session.take_line(line.as_str()),
            (Phase::Lines, Event::EndOfLines) => session.take_up(0, nothing_told()),
            (
                Phase::Inspecting { blkdev, mount, root_mount, sv },
                Event::Shown { success, stdout },
            ) => {
                let decision = process_inspection(
                    mount.as_str(),
                    root_mount.as_str(),
                    sv.as_str(),
                    session.verbose,
                    success,
                    stdout,
                );
                session.follow(blkdev, mount, decision)
            },
            (Phase::Listing { search, task }, Event::Entry(file_name)) => session.take_entry(
                search,
                task,
                file_name.as_str(),
            ),
            (Phase::Listing { search, task }, Event::EndOfEntries) => session.end_search(
                search,
                task,
            ),
            (
                Phase::Examining { search, task, candidate },
                Event::Shown { success, stdout },
            ) => session.take_snapshot(search, task, candidate, success, stdout),
            (Phase::Mounting { job, resume }, Event::Exited { success }) => {
                let next = job.exited(success);
                session.pursue(next.job, next.command, resume, next.messages)
            },
            _ => session.enter(Phase::Finished, Action::Finish, nothing_told()),
        }
    }
}

/// The first entry that is not done, from a place on.
pub proof fn lemma_next_pending(entries: Entries, index: int)
    requires
        0 <= index <= entries.len(),
    ensures
        index <= next_pending(entries, index) <= entries.len(),
        forall|i: int|
            index <= i < next_pending(entries, index) ==> (#[trigger] entries[i]).1.done,
        next_pending(entries, index) < entries.len() ==> !entries[next_pending(
            entries,
            index,
        )].1.done,
    decreases entries.len() - index,
{
    if index < entries.len() && entries[index].1.done {
        lemma_next_pending(entries, index + 1);
    }
}

/// To mark an entry as done keeps the mount points and their order.
pub proof fn lemma_marked(entries: Entries, mount: Seq<char>)
    requires
        keys_differ(entries),
    ensures
        keys_differ(marked(entries, mount)),
        marked(entries, mount).len() == entries.len(),
        forall|i: int|
            0 <= i < entries.len() ==> (#[trigger] marked(entries, mount)[i]) == (
                entries[i].0,
                ConfigEntry {
                    done: entries[i].1.done || entries[i].0 == mount,
                    ..entries[i].1
                },
            ),
{
    if let Some(entry) = lookup(entries, mount) {
        assert forall|i: int| 0 <= i < entries.len() implies (#[trigger] marked(
            entries,
            mount,
        )[i]) == (
            entries[i].0,
            ConfigEntry { done: entries[i].1.done || entries[i].0 == mount, ..entries[i].1 },
        ) by {
            if entries[i].0 == mount {
                lemma_lookup_unique(entries, i);
            }
        }
    } else {
        assert forall|i: int| 0 <= i < entries.len() implies (#[trigger] entries[i]).0 != mount by {
            lemma_lookup_finds(entries, i);
        }
    }
}

/// Every step of a session keeps its invariant.
pub proof fn lemma_step_keeps_session(state: SessionState, event: EventView)
    requires
        is_session(state),
        awaits(state.phase, event),
    ensures
        is_session(stepped(state, event).0),
{
    match (state.phase, event) {
        (Phase::Lines, Event::Line(line)) => {
            if let Some(m) = mount_fields(captures_of(MOUNT_LINE@, line)) {
                lemma_marked(state.entries, m.mount);
            }
        },
        (Phase::Lines, Event::EndOfLines) => {
            lemma_next_pending(state.entries, 0);
        },
        (Phase::Listing { search, task }, Event::EndOfEntries) => {
            if let Task::Fresh { index } = task {
                lemma_next_pending(state.entries, index + 1);
            }
        },
        (Phase::Mounting { job, resume }, Event::Exited { success }) => {
            if let Resume::Fresh { index } = resume {
                lemma_next_pending(state.entries, index as int);
            }
        },
        _ => {},
    }
}

} // verus!
