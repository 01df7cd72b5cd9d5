//! What is to be done about a mounted btrfs file system.

use crate::config::{ConfigEntry, Entries};
use crate::error::BtramError;
use crate::latest::{find_latest, found, search_begun, LatestSearch};
use crate::message::{Message, Stream};
use crate::pattern::{is_digit, is_one_line, is_timestamp};
use crate::series::{find_series, is_plain_prefix, series_of, snapshot_path};
use crate::subvol::{impurity, path_of, shown_info, subvol_path, sv_impure, sv_info};
use crate::table::{lookup, put, Table};
use crate::text::{chars_of, same_text};
use vstd::prelude::*;

verus! {

/// Which device has its root subvolume mounted where.
#[derive(Debug)]
pub struct Roots {
    /// From a device to the mount point of its root subvolume.
    pub bd2root: Table<String>,
    /// From the mount point of a root subvolume to its device.
    pub root2bd: Table<String>,
}

/// What a `Roots` stands for.
pub ghost struct RootMaps {
    pub bd2root: Map<Seq<char>, Seq<char>>,
    pub root2bd: Map<Seq<char>, Seq<char>>,
}

impl DeepView for Roots {
    type V = RootMaps;

    open spec fn deep_view(&self) -> RootMaps {
        RootMaps { bd2root: self.bd2root.deep_view(), root2bd: self.root2bd.deep_view() }
    }
}

/// What is to be done next about a mount. The text type `T` is `String` in programs
/// and `Seq<char>` in specifications.
#[derive(Debug, PartialEq, Eq)]
pub enum Course<T = String> {
    /// Nothing.
    Leave,
    /// To look at the subvolume that is mounted.
    Inspect { root_mount: T, sv: T },
    /// To search for the latest snapshot, which is to replace `current`.
    Search { search: LatestSearch<T>, current: Option<T> },
    /// To mount another subvolume.
    Replace { sv: T },
    /// To give up.
    Fail(BtramError<T>),
}

impl DeepView for Course {
    type V = Course<Seq<char>>;

    open spec fn deep_view(&self) -> Course<Seq<char>> {
        match *self {
            Course::Leave => Course::Leave,
            Course::Inspect { root_mount, sv } => Course::Inspect {
                root_mount: root_mount@,
                sv: sv@,
            },
            Course::Search { search, current } => Course::Search {
                search: search.deep_view(),
                current: current.deep_view(),
            },
            Course::Replace { sv } => Course::Replace { sv: sv@ },
            Course::Fail(e) => Course::Fail(e.deep_view()),
        }
    }
}

/// What is to be done next, and what is to be told first.
#[derive(Debug, PartialEq, Eq)]
pub struct Decision {
    pub course: Course,
    pub messages: Vec<Message>,
}

/// What a `Decision` stands for.
pub ghost struct DecisionView {
    pub course: Course<Seq<char>>,
    pub messages: Seq<Message<Seq<char>>>,
}

impl DeepView for Decision {
    type V = DecisionView;

    open spec fn deep_view(&self) -> DecisionView {
        DecisionView { course: self.course.deep_view(), messages: self.messages.deep_view() }
    }
}

/// A message for standard output.
pub open spec fn out(text: Seq<char>) -> Message<Seq<char>> {
    Message { stream: Stream::Stdout, text }
}

/// A message for standard error.
pub open spec fn err(text: Seq<char>) -> Message<Seq<char>> {
    Message { stream: Stream::Stderr, text }
}

pub open spec fn no_subvol(mount: Seq<char>) -> Message<Seq<char>> {
    err("Warning: mount '"@ + mount + "' has no subvol; was it deleted?"@)
}

pub open spec fn root_not_mounted(blkdev: Seq<char>, mount: Seq<char>) -> Message<Seq<char>> {
    err(
        "Warning: "@ + blkdev + " has a subvol at '"@ + mount
            + "', but its root subvol is not mounted"@,
    )
}

pub open spec fn not_in_config(mount: Seq<char>) -> Message<Seq<char>> {
    err("Warning: mount '"@ + mount + "' is not mentioned in config"@)
}

pub open spec fn skipped(
    status: Seq<char>,
    mount: Seq<char>,
    root_mount: Seq<char>,
    sv: Seq<char>,
) -> Message<Seq<char>> {
    out(
        "Mount [skipped - "@ + status + "]: '"@ + mount + "' -> "@ + subvol_path(root_mount, sv),
    )
}

pub open spec fn is_candidate(
    mount: Seq<char>,
    root_mount: Seq<char>,
    sv: Seq<char>,
) -> Message<Seq<char>> {
    out("Mount [candidate]: '"@ + mount + "' -> '"@ + subvol_path(root_mount, sv) + "'"@)
}

pub open spec fn replaces(
    mount: Seq<char>,
    root_mount: Seq<char>,
    sv_new: Seq<char>,
    current: Option<Seq<char>>,
) -> Message<Seq<char>> {
    match current {
        Some(sv) => out(
            "'"@ + mount + "': '"@ + subvol_path(root_mount, sv_new) + "' replaces '"@
                + subvol_path(root_mount, sv) + "'"@,
        ),
        None => out("'"@ + mount + "': "@ + subvol_path(root_mount, sv_new) + " replaces <none>"@),
    }
}

/// The configuration with the entry of a mount point marked as done.
pub open spec fn marked(entries: Entries, mount: Seq<char>) -> Entries {
    match lookup(entries, mount) {
        Some(entry) => put(entries, mount, ConfigEntry { done: true, ..entry }),
        None => entries,
    }
}

/// The course that begins a search.
pub open spec fn search_course(
    root_mount: Seq<char>,
    ssdir: Seq<char>,
    ss_prefix: Seq<char>,
    current: Option<Seq<char>>,
) -> Course<Seq<char>> {
    match search_begun(root_mount, ssdir, ss_prefix) {
        Ok(search) => Course::Search { search, current },
        Err(e) => Course::Fail(e),
    }
}

/// Whether a mount of the device is a subvolume mount that is to be looked at: the
/// root subvolume of the device was mounted before.
pub open spec fn is_inspected(roots: RootMaps, blkdev: Seq<char>, sv: Option<Seq<char>>) -> bool {
    &&& sv is Some
    &&& sv != Some("/"@)
    &&& sv->0.len() > 0 && sv->0[0] == '/'
    &&& roots.bd2root.contains_key(blkdev)
}

/// What is known of root subvolumes after a mount was seen.
pub open spec fn roots_after(
    roots: RootMaps,
    blkdev: Seq<char>,
    mount: Seq<char>,
    sv: Option<Seq<char>>,
) -> RootMaps {
    if sv == Some("/"@) {
        RootMaps {
            bd2root: roots.bd2root.insert(blkdev, mount),
            root2bd: roots.root2bd.insert(mount, blkdev),
        }
    } else {
        roots
    }
}

/// The configuration after a mount was seen.
pub open spec fn entries_after(
    roots: RootMaps,
    entries: Entries,
    blkdev: Seq<char>,
    mount: Seq<char>,
    sv: Option<Seq<char>>,
) -> Entries {
    if is_inspected(roots, blkdev, sv) {
        marked(entries, mount)
    } else {
        entries
    }
}

/// What is to be done about a mount that was seen.
pub open spec fn first_decision(
    roots: RootMaps,
    entries: Entries,
    blkdev: Seq<char>,
    mount: Seq<char>,
    sv: Option<Seq<char>>,
) -> DecisionView {
    match sv {
        None => DecisionView {
            course: match lookup(entries, mount) {
                Some(cfg) => search_course(cfg.root, cfg.dir, cfg.prefix, None),
                None => Course::Leave,
            },
            messages: seq![no_subvol(mount)],
        },
        Some(sv) => if sv == "/"@ {
            DecisionView { course: Course::Leave, messages: Seq::empty() }
        } else if sv.len() == 0 || sv[0] != '/' {
            DecisionView {
                course: Course::Fail(BtramError::BadSubvolPath(sv)),
                messages: Seq::empty(),
            }
        } else if !roots.bd2root.contains_key(blkdev) {
            DecisionView {
                course: Course::Leave,
                messages: seq![root_not_mounted(blkdev, mount)],
            }
        } else {
            DecisionView {
                course: Course::Inspect {
                    root_mount: roots.bd2root[blkdev],
                    sv: sv.drop_first(),
                },
                messages: if lookup(entries, mount) is Some {
                    Seq::empty()
                } else {
                    seq![not_in_config(mount)]
                },
            }
        },
    }
}

/// What is to be done about a mount when `btrfs subvolume show` has answered for the
/// subvolume on it.
pub open spec fn inspected_decision(
    mount: Seq<char>,
    root_mount: Seq<char>,
    sv: Seq<char>,
    verbose: bool,
    success: bool,
    stdout: Seq<u8>,
) -> DecisionView {
    match shown_info(root_mount, sv, success, stdout) {
        Err(e) => DecisionView { course: Course::Fail(e), messages: Seq::empty() },
        Ok(info) => match (impurity(info), series_of(sv)) {
            (Some(status), _) => DecisionView {
                course: Course::Leave,
                messages: if verbose {
                    seq![skipped(status, mount, root_mount, sv)]
                } else {
                    Seq::empty()
                },
            },
            (None, None) => DecisionView { course: Course::Leave, messages: Seq::empty() },
            (None, Some((ssdir, ss_prefix))) => DecisionView {
                course: search_course(root_mount, ssdir, ss_prefix, Some(sv)),
                messages: if verbose {
                    seq![is_candidate(mount, root_mount, sv)]
                } else {
                    Seq::empty()
                },
            },
        },
    }
}

/// What is to be done about a mount when the search has ended: what is mounted is
/// replaced by the latest snapshot, unless it is that snapshot.
pub open spec fn searched_decision(
    mount: Seq<char>,
    search: LatestSearch<Seq<char>>,
    current: Option<Seq<char>>,
) -> DecisionView {
    match found(search) {
        Some(sv_new) => if current == Some(sv_new) {
            DecisionView { course: Course::Leave, messages: Seq::empty() }
        } else {
            DecisionView {
                course: Course::Replace { sv: sv_new },
                messages: seq![replaces(mount, search.root_mount, sv_new, current)],
            }
        },
        None => DecisionView { course: Course::Leave, messages: Seq::empty() },
    }
}

fn begin_search(root_mount: &str, ssdir: &str, ss_prefix: &str, current: Option<String>) -> (course:
    Course)
    ensures
        course.deep_view() == search_course(
            root_mount@,
            ssdir@,
            ss_prefix@,
            current.deep_view(),
        ),
{
    match find_latest(root_mount, ssdir, ss_prefix) {
        Ok(search) => Course::Search { search, current },
        Err(e) => Course::Fail(e),
    }
}

/// Decides what is to be done about a mount, and notes what it tells.
pub fn process_mount(
    blkdev: &str,
    mount: &str,
    sv: Option<&str>,
    roots: &mut Roots,
    config: &mut Table<ConfigEntry>,
) -> (decision: Decision)
    ensures
        final(roots).deep_view() == roots_after(
            old(roots).deep_view(),
            blkdev@,
            mount@,
            sv.deep_view(),
        ),
        final(config).pairs() == entries_after(
            old(roots).deep_view(),
            old(config).pairs(),
            blkdev@,
            mount@,
            sv.deep_view(),
        ),
        decision.deep_view() == first_decision(
            old(roots).deep_view(),
            old(config).pairs(),
            blkdev@,
            mount@,
            sv.deep_view(),
        ),
{
    let mut messages: Vec<Message> = Vec::new();
    assert(messages.deep_view() =~= Seq::empty());
    match sv {
        None => {
            let mut text = "Warning: mount '".to_owned();
            text.append(mount);
            text.append("' has no subvol; was it deleted?");
            messages.push(Message { stream: Stream::Stderr, text });
            assert(messages.deep_view() =~= seq![no_subvol(mount@)]);
            let course = match config.get(mount) {
                Some(cfg) => begin_search(
                    cfg.root.as_str(),
                    cfg.dir.as_str(),
                    cfg.prefix.as_str(),
                    None,
                ),
                None => Course::Leave,
            };
            Decision { course, messages }
        },
        Some(sv) => {
            if same_text(sv, "/") {
                roots.bd2root.insert(blkdev.to_owned(), mount.to_owned());
                roots.root2bd.insert(mount.to_owned(), blkdev.to_owned());
                return Decision { course: Course::Leave, messages };
            }
            let chars = chars_of(sv);
            if chars.len() == 0 || chars[0] != '/' {
                return Decision {
                    course: Course::Fail(BtramError::BadSubvolPath(sv.to_owned())),
                    messages,
                };
            }
            let path = sv.substring_char(1, chars.len());
            assert(path@ =~= sv@.drop_first());
            let root_mount = match roots.bd2root.get(blkdev) {
                Some(root_mount) => root_mount.clone(),
                None => {
                    let mut text = "Warning: ".to_owned();
                    text.append(blkdev);
                    text.append(" has a subvol at '");
                    text.append(mount);
                    text.append("', but its root subvol is not mounted");
                    messages.push(Message { stream: Stream::Stderr, text });
                    assert(messages.deep_view() =~= seq![root_not_mounted(blkdev@, mount@)]);
                    return Decision { course: Course::Leave, messages };
                },
            };
            let known = match config.get(mount) {
                Some(cfg) => Some(
                    ConfigEntry {
                        root: cfg.root.clone(),
                        dir: cfg.dir.clone(),
                        prefix: cfg.prefix.clone(),
                        done: true,
                    },
                ),
                None => None,
            };
            match known {
                Some(cfg) => {
                    config.insert(mount.to_owned(), cfg);
                },
                None => {
                    let mut text = "Warning: mount '".to_owned();
                    text.append(mount);
                    text.append("' is not mentioned in config");
                    messages.push(Message { stream: Stream::Stderr, text });
                    assert(messages.deep_view() =~= seq![not_in_config(mount@)]);
                },
            }
            Decision { course: Course::Inspect { root_mount, sv: path.to_owned() }, messages }
        },
    }
}

/// Goes on when `btrfs subvolume show` has answered for the subvolume `sv` on a
/// mount point.
pub fn process_inspection(
    mount: &str,
    root_mount: &str,
    sv: &str,
    verbose: bool,
    success: bool,
    stdout: Vec<u8>,
) -> (decision: Decision)
    ensures
        decision.deep_view() == inspected_decision(
            mount@,
            root_mount@,
            sv@,
            verbose,
            success,
            stdout@,
        ),
        // A clean snapshot leads to a search of its own series.
        forall|dir: Seq<char>, prefix: Seq<char>, timestamp: Seq<char>|
            {
                &&& sv@ == #[trigger] snapshot_path(dir, prefix, timestamp)
                &&& is_one_line(dir) && is_plain_prefix(prefix)
                &&& is_timestamp(timestamp) && is_digit(timestamp[0])
                &&& shown_info(root_mount@, sv@, success, stdout@) matches Ok(info)
                &&& impurity(info) is None
            } ==> decision.course.deep_view() == search_course(
                root_mount@,
                dir,
                prefix,
                Some(sv@),
            ),
{
    let mut messages: Vec<Message> = Vec::new();
    assert(messages.deep_view() =~= Seq::empty());
    let info = match sv_info(root_mount, sv, success, stdout) {
        Ok(info) => info,
        Err(e) => {
            return Decision { course: Course::Fail(e), messages };
        },
    };
    if let Some(status) = sv_impure(&info) {
        if verbose {
            let mut text = "Mount [skipped - ".to_owned();
            text.append(status);
            text.append("]: '");
            text.append(mount);
            text.append("' -> ");
            text.append(path_of(root_mount, sv).as_str());
            messages.push(Message { stream: Stream::Stdout, text });
            assert(messages.deep_view() =~= seq![skipped(status@, mount@, root_mount@, sv@)]);
        }
        return Decision { course: Course::Leave, messages };
    }
    match find_series(sv) {
        Some((ssdir, ss_prefix)) => {
            if verbose {
                let mut text = "Mount [candidate]: '".to_owned();
                text.append(mount);
                text.append("' -> '");
                text.append(path_of(root_mount, sv).as_str());
                text.append("'");
                messages.push(Message { stream: Stream::Stdout, text });
                assert(messages.deep_view() =~= seq![is_candidate(mount@, root_mount@, sv@)]);
            }
            let course = begin_search(
                root_mount,
                ssdir.as_str(),
                ss_prefix.as_str(),
                Some(sv.to_owned()),
            );
            Decision { course, messages }
        },
        None => Decision { course: Course::Leave, messages },
    }
}

/// Goes on when the search for the latest snapshot has ended.
pub fn process_search(mount: &str, search: &LatestSearch, current: &Option<String>) -> (decision:
    Decision)
    ensures
        decision.deep_view() == searched_decision(
            mount@,
            search.deep_view(),
            current.deep_view(),
        ),
{
    let mut messages: Vec<Message> = Vec::new();
    assert(messages.deep_view() =~= Seq::empty());
    match search.result() {
        Some(sv_new) => {
            let mut text = "'".to_owned();
            text.append(mount);
            match current {
                Some(sv) => {
                    if same_text(sv_new.as_str(), sv.as_str()) {
                        return Decision { course: Course::Leave, messages };
                    }
                    text.append("': '");
                    text.append(path_of(search.root_mount.as_str(), sv_new.as_str()).as_str());
                    text.append("' replaces '");
                    text.append(path_of(search.root_mount.as_str(), sv.as_str()).as_str());
                    text.append("'");
                },
                None => {
                    text.append("': ");
                    text.append(path_of(search.root_mount.as_str(), sv_new.as_str()).as_str());
                    text.append(" replaces <none>");
                },
            }
            messages.push(Message { stream: Stream::Stdout, text });
            assert(messages.deep_view() =~= seq![
                replaces(mount@, search.root_mount@, sv_new@, current.deep_view()),
            ]);
            Decision { course: Course::Replace { sv: sv_new }, messages }
        },
        None => Decision { course: Course::Leave, messages },
    }
}

} // verus!
