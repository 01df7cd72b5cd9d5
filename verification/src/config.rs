//! The configuration: which snapshot series belongs on which mount point.

use crate::error::{result_view, BtramError};
use crate::subvol::{path_of, subvol_path};
use crate::table::{keys_differ, lemma_lookup_put, lookup, put, Table};
use crate::text::{blank, is_blank, is_white, joined, law_split_joins, lemma_split_append};
use crate::text::{lemma_split_at, split, split_text};
use vstd::prelude::*;

verus! {

/// The series that belongs on a mount point. The text type `T` is `String` in
/// programs and `Seq<char>` in specifications.
#[derive(Debug, PartialEq, Eq)]
pub struct ConfigEntry<T = String> {
    /// Where the root of the file system is mounted.
    pub root: T,
    /// The directory of the series, below the root.
    pub dir: T,
    /// The prefix of the series.
    pub prefix: T,
    /// Whether the mount point was found mounted.
    pub done: bool,
}

impl DeepView for ConfigEntry {
    type V = ConfigEntry<Seq<char>>;

    open spec fn deep_view(&self) -> ConfigEntry<Seq<char>> {
        ConfigEntry { root: self.root@, dir: self.dir@, prefix: self.prefix@, done: self.done }
    }
}

/// The mount points of the configuration with what belongs on them, in order.
pub type Entries = Seq<(Seq<char>, ConfigEntry<Seq<char>>)>;

/// One line of the configuration.
#[derive(Debug, PartialEq, Eq)]
pub struct ConfigLine<T = String> {
    pub mount: T,
    pub root: T,
    pub dir: T,
    pub prefix: T,
}

impl DeepView for ConfigLine {
    type V = ConfigLine<Seq<char>>;

    open spec fn deep_view(&self) -> ConfigLine<Seq<char>> {
        ConfigLine {
            mount: self.mount@,
            root: self.root@,
            dir: self.dir@,
            prefix: self.prefix@,
        }
    }
}

/// The pieces that are not empty.
pub open spec fn nonempty(pieces: Seq<Seq<char>>) -> Seq<Seq<char>>
    decreases pieces.len(),
{
    if pieces.len() == 0 {
        Seq::empty()
    } else if pieces.last().len() == 0 {
        nonempty(pieces.drop_last())
    } else {
        nonempty(pieces.drop_last()).push(pieces.last())
    }
}

/// The columns of a line: what stands between its tabs.
pub open spec fn columns_of(line: Seq<char>) -> Seq<Seq<char>> {
    nonempty(split(line, '\t'))
}

/// What a line of the configuration says: nothing where it is blank, else four
/// columns.
pub open spec fn config_line(line: Seq<char>) -> Result<
    Option<ConfigLine<Seq<char>>>,
    BtramError<Seq<char>>,
> {
    let columns = columns_of(line);
    if is_blank(line) {
        Ok(None)
    } else if columns.len() != 4 {
        Err(BtramError::BadConfig("Invalid number of columns"@))
    } else {
        Ok(
            Some(
                ConfigLine {
                    mount: columns[0],
                    root: columns[1],
                    dir: columns[2],
                    prefix: columns[3],
                },
            ),
        )
    }
}

/// Reads one line of the configuration.
pub fn parse_config_line(line: &str) -> (parsed: Result<Option<ConfigLine>, BtramError>)
    ensures
        result_view(parsed) == config_line(line@),
{
    if blank(line) {
        return Ok(None);
    }
    let pieces = split_text(line, '\t');
    let ghost all = split(line@, '\t');
    let mut columns: Vec<&str> = Vec::new();
    let mut i: usize = 0;
    assert(all.take(0) =~= Seq::empty());
    while i < pieces.len()
        invariant
            i <= pieces.len(),
            pieces.deep_view() == all,
            columns.deep_view() =~= nonempty(all.take(i as int)),
        decreases pieces.len() - i,
    {
        let ghost before = columns.deep_view();
        let piece = pieces[i];
        assert(piece@ == all[i as int]);
        assert(all.take(i + 1).drop_last() =~= all.take(i as int));
        if !piece.is_empty() {
            columns.push(piece);
            assert(columns.deep_view() =~= before.push(piece@));
        }
        i += 1;
    }
    assert(all.take(i as int) =~= all);
    if columns.len() != 4 {
        return Err(BtramError::BadConfig("Invalid number of columns".to_owned()));
    }
    assert forall|k: int| 0 <= k < 4 implies columns@[k]@ == columns_of(line@)[k] by {
        assert(columns.deep_view()[k] == columns@[k].deep_view());
    }
    Ok(
        Some(
            ConfigLine {
                mount: columns[0].to_owned(),
                root: columns[1].to_owned(),
                dir: columns[2].to_owned(),
                prefix: columns[3].to_owned(),
            },
        ),
    )
}

/// What is being done about a line: each of its three directories is looked for in
/// turn.
#[derive(Debug, PartialEq, Eq)]
pub enum Stage<T = String> {
    /// The next line is waited for.
    Idle,
    /// The mount point is looked for.
    Mount(ConfigLine<T>),
    /// The root is looked for.
    Root(ConfigLine<T>),
    /// The directory of the series is looked for.
    Series(ConfigLine<T>),
}

impl DeepView for Stage {
    type V = Stage<Seq<char>>;

    open spec fn deep_view(&self) -> Stage<Seq<char>> {
        match *self {
            Stage::Idle => Stage::Idle,
            Stage::Mount(line) => Stage::Mount(line.deep_view()),
            Stage::Root(line) => Stage::Root(line.deep_view()),
            Stage::Series(line) => Stage::Series(line.deep_view()),
        }
    }
}

/// What the loader asks for.
#[derive(Debug, PartialEq, Eq)]
pub enum LoadAction<T = String> {
    /// The next line, or the end.
    NextLine,
    /// Whether a path is a directory.
    CheckDir(T),
    /// To give up.
    Fail(BtramError<T>),
}

impl DeepView for LoadAction {
    type V = LoadAction<Seq<char>>;

    open spec fn deep_view(&self) -> LoadAction<Seq<char>> {
        match *self {
            LoadAction::NextLine => LoadAction::NextLine,
            LoadAction::CheckDir(path) => LoadAction::CheckDir(path@),
            LoadAction::Fail(e) => LoadAction::Fail(e.deep_view()),
        }
    }
}

/// Reads a configuration line by line.
#[derive(Debug)]
pub struct ConfigLoader {
    entries: Table<ConfigEntry>,
    stage: Stage,
}

/// What a `ConfigLoader` stands for.
pub ghost struct LoaderState {
    pub entries: Entries,
    pub stage: Stage<Seq<char>>,
}

impl DeepView for ConfigLoader {
    type V = LoaderState;

    closed spec fn deep_view(&self) -> LoaderState {
        LoaderState { entries: self.entries.pairs(), stage: self.stage.deep_view() }
    }
}

/// The entry that a line makes.
pub open spec fn entry_of(line: ConfigLine<Seq<char>>) -> ConfigEntry<Seq<char>> {
    ConfigEntry { root: line.root, dir: line.dir, prefix: line.prefix, done: false }
}

/// What the loader does with the next line.
pub open spec fn load_line_step(state: LoaderState, line: Seq<char>) -> (
    LoaderState,
    LoadAction<Seq<char>>,
) {
    match config_line(line) {
        Ok(None) => (state, LoadAction::NextLine),
        Ok(Some(l)) => (
            LoaderState { stage: Stage::Mount(l), ..state },
            LoadAction::CheckDir(l.mount),
        ),
        Err(e) => (state, LoadAction::Fail(e)),
    }
}

/// What the loader does when it has learned whether the path that it asked for is a
/// directory.
pub open spec fn load_check_step(state: LoaderState, is_dir: bool) -> (
    LoaderState,
    LoadAction<Seq<char>>,
) {
    match state.stage {
        Stage::Idle => (state, LoadAction::NextLine),
        Stage::Mount(l) => if is_dir {
            (LoaderState { stage: Stage::Root(l), ..state }, LoadAction::CheckDir(l.root))
        } else {
            (
                LoaderState { stage: Stage::Idle, ..state },
                LoadAction::Fail(not_a_directory("Mount point '"@, l.mount)),
            )
        },
        Stage::Root(l) => if is_dir {
            (
                LoaderState { stage: Stage::Series(l), ..state },
                LoadAction::CheckDir(subvol_path(l.root, l.dir)),
            )
        } else {
            (
                LoaderState { stage: Stage::Idle, ..state },
                LoadAction::Fail(not_a_directory("Root '"@, l.root)),
            )
        },
        Stage::Series(l) => if is_dir {
            (
                LoaderState { entries: put(state.entries, l.mount, entry_of(l)), stage: Stage::Idle },
                LoadAction::NextLine,
            )
        } else {
            (
                LoaderState { stage: Stage::Idle, ..state },
                LoadAction::Fail(
                    not_a_directory("Snapshot directory '"@, subvol_path(l.root, l.dir)),
                ),
            )
        },
    }
}

/// The error about a path that is no directory.
pub open spec fn not_a_directory(what: Seq<char>, path: Seq<char>) -> BtramError<Seq<char>> {
    BtramError::BadConfig(what + path + "' is not a directory"@)
}

fn no_directory(what: &str, path: &str) -> (e: BtramError)
    ensures
        e.deep_view() == not_a_directory(what@, path@),
{
    let mut text = what.to_owned();
    text.append(path);
    text.append("' is not a directory");
    BtramError::BadConfig(text)
}

impl ConfigLoader {
    /// A loader that has read nothing.
    pub fn new() -> (loader: Self)
        ensures
            loader.deep_view() == (LoaderState { entries: Seq::empty(), stage: Stage::Idle }),
    {
        ConfigLoader { entries: Table::new(), stage: Stage::Idle }
    }

    /// Whether the loader waits for a line, not for what became of a directory.
    pub fn is_idle(&self) -> (idle: bool)
        ensures
            idle == (self.deep_view().stage is Idle),
    {
        match &self.stage {
            Stage::Idle => true,
            _ => false,
        }
    }

    /// Takes the next line.
    pub fn line(self, line: &str) -> (step: (Self, LoadAction))
        requires
            self.deep_view().stage is Idle,
        ensures
            (step.0.deep_view(), step.1.deep_view()) == load_line_step(self.deep_view(), line@),
    {
        match parse_config_line(line) {
            Ok(None) => (self, LoadAction::NextLine),
            Ok(Some(l)) => {
                let action = LoadAction::CheckDir(l.mount.clone());
                (ConfigLoader { entries: self.entries, stage: Stage::Mount(l) }, action)
            },
            Err(e) => (self, LoadAction::Fail(e)),
        }
    }

    /// Takes the answer whether the path that was asked for is a directory.
    pub fn checked(self, is_dir: bool) -> (step: (Self, LoadAction))
        requires
            !(self.deep_view().stage is Idle),
        ensures
            (step.0.deep_view(), step.1.deep_view()) == load_check_step(self.deep_view(), is_dir),
    {
        let mut entries = self.entries;
        match self.stage {
            Stage::Idle => (ConfigLoader { entries, stage: Stage::Idle }, LoadAction::NextLine),
            Stage::Mount(l) => if is_dir {
                let action = LoadAction::CheckDir(l.root.clone());
                (ConfigLoader { entries, stage: Stage::Root(l) }, action)
            } else {
                let e = no_directory("Mount point '", l.mount.as_str());
                (ConfigLoader { entries, stage: Stage::Idle }, LoadAction::Fail(e))
            },
            Stage::Root(l) => if is_dir {
                let action = LoadAction::CheckDir(path_of(l.root.as_str(), l.dir.as_str()));
                (ConfigLoader { entries, stage: Stage::Series(l) }, action)
            } else {
                let e = no_directory("Root '", l.root.as_str());
                (ConfigLoader { entries, stage: Stage::Idle }, LoadAction::Fail(e))
            },
            Stage::Series(l) => if is_dir {
                let entry = ConfigEntry { root: l.root, dir: l.dir, prefix: l.prefix, done: false };
                entries.insert(l.mount, entry);
                (ConfigLoader { entries, stage: Stage::Idle }, LoadAction::NextLine)
            } else {
                let path = path_of(l.root.as_str(), l.dir.as_str());
                let e = no_directory("Snapshot directory '", path.as_str());
                (ConfigLoader { entries, stage: Stage::Idle }, LoadAction::Fail(e))
            },
        }
    }

    /// The entries of all lines so far.
    pub fn finish(self) -> (entries: Table<ConfigEntry>)
        ensures
            entries.pairs() == self.deep_view().entries,
            keys_differ(entries.pairs()),
    {
        // The call brings in that no key occurs twice.
        let _ = self.entries.len();
        self.entries
    }
}

/// The first thing about a line that the file system contradicts.
pub open spec fn refusal(
    line: ConfigLine<Seq<char>>,
    is_dir: spec_fn(Seq<char>) -> bool,
) -> Option<BtramError<Seq<char>>> {
    if !is_dir(line.mount) {
        Some(not_a_directory("Mount point '"@, line.mount))
    } else if !is_dir(line.root) {
        Some(not_a_directory("Root '"@, line.root))
    } else if !is_dir(subvol_path(line.root, line.dir)) {
        Some(not_a_directory("Snapshot directory '"@, subvol_path(line.root, line.dir)))
    } else {
        None
    }
}

/// The entries after one more line, on a machine with the given directories.
pub open spec fn loaded_line(
    entries: Entries,
    line: Seq<char>,
    is_dir: spec_fn(Seq<char>) -> bool,
) -> Result<Entries, BtramError<Seq<char>>> {
    match config_line(line) {
        Ok(None) => Ok(entries),
        Ok(Some(l)) => match refusal(l, is_dir) {
            None => Ok(put(entries, l.mount, entry_of(l))),
            Some(e) => Err(e),
        },
        Err(e) => Err(e),
    }
}

/// The configuration that lines make on a machine with the given directories: the
/// first line that cannot be used decides, else a later line replaces an earlier
/// one for the same mount point.
pub open spec fn loaded(lines: Seq<Seq<char>>, is_dir: spec_fn(Seq<char>) -> bool) -> Result<
    Entries,
    BtramError<Seq<char>>,
>
    decreases lines.len(),
{
    if lines.len() == 0 {
        Ok(Seq::empty())
    } else {
        match loaded(lines.drop_last(), is_dir) {
            Ok(entries) => loaded_line(entries, lines.last(), is_dir),
            Err(e) => Err(e),
        }
    }
}

/// The loader once the question that it asked, if any, is answered.
pub open spec fn answered(
    step: (LoaderState, LoadAction<Seq<char>>),
    is_dir: spec_fn(Seq<char>) -> bool,
) -> (LoaderState, LoadAction<Seq<char>>) {
    match step.1 {
        LoadAction::CheckDir(path) => load_check_step(step.0, is_dir(path)),
        _ => step,
    }
}

/// The loader once a line was given to it and its questions were answered.
pub open spec fn line_loaded(
    state: LoaderState,
    line: Seq<char>,
    is_dir: spec_fn(Seq<char>) -> bool,
) -> (LoaderState, LoadAction<Seq<char>>) {
    let first = load_line_step(state, line);
    answered(answered(answered(first, is_dir), is_dir), is_dir)
}

/// The loader once all lines were given to it, up to the first failure.
pub open spec fn lines_loaded(lines: Seq<Seq<char>>, is_dir: spec_fn(Seq<char>) -> bool) -> (
    LoaderState,
    LoadAction<Seq<char>>,
)
    decreases lines.len(),
{
    if lines.len() == 0 {
        (LoaderState { entries: Seq::empty(), stage: Stage::Idle }, LoadAction::NextLine)
    } else {
        let (state, action) = lines_loaded(lines.drop_last(), is_dir);
        if action is Fail {
            (state, action)
        } else {
            line_loaded(state, lines.last(), is_dir)
        }
    }
}

/// A loader whose questions are answered reads the configuration that the lines
/// make, and fails where they make none.
pub proof fn law_loader_loads(lines: Seq<Seq<char>>, is_dir: spec_fn(Seq<char>) -> bool)
    ensures
        match loaded(lines, is_dir) {
            Ok(entries) => lines_loaded(lines, is_dir) == (
                LoaderState { entries, stage: Stage::Idle },
                LoadAction::<Seq<char>>::NextLine,
            ),
            Err(e) => lines_loaded(lines, is_dir).1 == LoadAction::Fail(e),
        },
    decreases lines.len(),
{
    if lines.len() > 0 {
        law_loader_loads(lines.drop_last(), is_dir);
    }
}

/// Each entry of a configuration comes from a line: its mount point, its root and
/// its series directory are directories, none of its texts is empty or holds a tab, and
/// it is not done.
pub proof fn law_entries_are_checked(
    lines: Seq<Seq<char>>,
    is_dir: spec_fn(Seq<char>) -> bool,
    mount: Seq<char>,
)
    requires
        loaded(lines, is_dir) is Ok,
        lookup(loaded(lines, is_dir)->Ok_0, mount) is Some,
    ensures
        ({
            let entry = lookup(loaded(lines, is_dir)->Ok_0, mount)->0;
            &&& is_dir(mount) && is_dir(entry.root) && is_dir(subvol_path(entry.root, entry.dir))
            &&& mount.len() > 0 && entry.root.len() > 0
            &&& entry.dir.len() > 0 && entry.prefix.len() > 0
            &&& !mount.contains('\t') && !entry.root.contains('\t')
            &&& !entry.dir.contains('\t') && !entry.prefix.contains('\t')
            &&& !entry.done
        }),
    decreases lines.len(),
{
    let before = loaded(lines.drop_last(), is_dir)->Ok_0;
    if let Ok(Some(l)) = config_line(lines.last()) {
        lemma_lookup_put(before, l.mount, entry_of(l), mount);
        law_split_joins(lines.last(), '\t');
        lemma_nonempty(split(lines.last(), '\t'));
        if mount != l.mount {
            law_entries_are_checked(lines.drop_last(), is_dir, mount);
        }
    } else {
        law_entries_are_checked(lines.drop_last(), is_dir, mount);
    }
}

/// The last line for a mount point is the one that counts.
pub proof fn law_last_line_counts(
    lines: Seq<Seq<char>>,
    line: Seq<char>,
    is_dir: spec_fn(Seq<char>) -> bool,
)
    requires
        loaded(lines, is_dir) is Ok,
        config_line(line) matches Ok(Some(l)) && refusal(l, is_dir) is None,
    ensures
        loaded(lines.push(line), is_dir) is Ok,
        lookup(loaded(lines.push(line), is_dir)->Ok_0, (config_line(line)->Ok_0->0).mount) == Some(
            entry_of(config_line(line)->Ok_0->0),
        ),
{
    let l = config_line(line)->Ok_0->0;
    assert(lines.push(line).drop_last() =~= lines);
    lemma_lookup_put(loaded(lines, is_dir)->Ok_0, l.mount, entry_of(l), l.mount);
}

/// The pieces that are not empty are among the pieces.
proof fn lemma_nonempty(pieces: Seq<Seq<char>>)
    ensures
        forall|i: int|
            0 <= i < nonempty(pieces).len() ==> (#[trigger] nonempty(pieces)[i]).len() > 0
                && pieces.contains(nonempty(pieces)[i]),
    decreases pieces.len(),
{
    if pieces.len() > 0 {
        lemma_nonempty(pieces.drop_last());
        let before = nonempty(pieces.drop_last());
        assert forall|i: int| 0 <= i < nonempty(pieces).len() implies (#[trigger] nonempty(
            pieces,
        )[i]).len() > 0 && pieces.contains(nonempty(pieces)[i]) by {
            if i < before.len() {
                assert(nonempty(pieces)[i] == before[i]);
                let k = choose|k: int|
                    0 <= k < pieces.drop_last().len() && pieces.drop_last()[k] == before[i];
                assert(pieces[k] == before[i]);
            } else {
                assert(pieces[pieces.len() - 1] == nonempty(pieces)[i]);
            }
        }
    }
}

proof fn lemma_nonempty_concat(a: Seq<Seq<char>>, b: Seq<Seq<char>>)
    ensures
        nonempty(a + b) == nonempty(a) + nonempty(b),
    decreases b.len(),
{
    if b.len() == 0 {
        assert(a + b =~= a);
        assert(nonempty(a) + nonempty(b) =~= nonempty(a));
    } else {
        lemma_nonempty_concat(a, b.drop_last());
        assert((a + b).drop_last() =~= a + b.drop_last());
        assert(nonempty(a + b) =~= nonempty(a) + nonempty(b));
    }
}

/// The columns before and after a tab are those of the two parts.
proof fn lemma_columns_at_tab(a: Seq<char>, b: Seq<char>)
    ensures
        columns_of(a + seq!['\t'] + b) == columns_of(a) + columns_of(b),
{
    lemma_split_at(a, '\t', b);
    lemma_nonempty_concat(split(a, '\t'), split(b, '\t'));
}

/// A nonempty run of tabs.
pub open spec fn is_tabs(s: Seq<char>) -> bool {
    s.len() > 0 && forall|i: int| 0 <= i < s.len() ==> #[trigger] s[i] == '\t'
}

/// A run of tabs has no columns, and parts columns as one tab does.
proof fn lemma_columns_at_tabs(a: Seq<char>, tabs: Seq<char>, b: Seq<char>)
    requires
        is_tabs(tabs),
    ensures
        columns_of(a + tabs + b) == columns_of(a) + columns_of(b),
    decreases tabs.len(),
{
    if tabs.len() == 1 {
        assert(tabs =~= seq!['\t']);
        lemma_columns_at_tab(a, b);
    } else {
        let fewer = tabs.drop_last();
        assert forall|i: int| 0 <= i < fewer.len() implies #[trigger] fewer[i] == '\t' by {
            assert(fewer[i] == tabs[i]);
        }
        let nothing = Seq::<char>::empty();
        assert(tabs =~= fewer + seq!['\t']);
        assert(a + tabs + b =~= a + fewer + seq!['\t'] + b);
        lemma_columns_at_tab(a + fewer, b);
        lemma_columns_at_tabs(a, fewer, nothing);
        assert(a + fewer + nothing =~= a + fewer);
        lemma_no_columns();
        assert(columns_of(a) + columns_of(nothing) =~= columns_of(a));
    }
}

proof fn lemma_no_columns()
    ensures
        columns_of(Seq::<char>::empty()) == Seq::<Seq<char>>::empty(),
{
    let pieces = split(Seq::<char>::empty(), '\t');
    assert(pieces.drop_last() =~= Seq::empty());
    assert(nonempty(pieces.drop_last()) =~= Seq::empty());
}

/// Texts are blank together or not at all where one has a run of tabs in the place of
/// another.
proof fn lemma_blank_at_tabs(a: Seq<char>, tabs: Seq<char>, b: Seq<char>)
    requires
        is_blank(tabs),
    ensures
        is_blank(a + tabs + b) == (is_blank(a) && is_blank(b)),
{
    let s = a + tabs + b;
    if is_blank(s) {
        assert forall|i: int| 0 <= i < a.len() implies is_white(#[trigger] a[i]) by {
            assert(s[i] == a[i]);
        }
        assert forall|i: int| 0 <= i < b.len() implies is_white(#[trigger] b[i]) by {
            assert(s[a.len() + tabs.len() + i] == b[i]);
        }
    } else if is_blank(a) && is_blank(b) {
        assert forall|i: int| 0 <= i < s.len() implies is_white(#[trigger] s[i]) by {
            if i < a.len() {
                assert(s[i] == a[i]);
            } else if i < a.len() + tabs.len() {
                assert(s[i] == tabs[i - a.len()]);
            } else {
                assert(s[i] == b[i - a.len() - tabs.len()]);
            }
        }
    }
}

/// A line says the same with a run of tabs in the place of a tab, and with tabs at its
/// beginning or its end.
pub proof fn law_tab_runs_are_irrelevant(before: Seq<char>, tabs: Seq<char>, after: Seq<char>)
    requires
        is_tabs(tabs),
    ensures
        config_line(before + tabs + after) == config_line(before + seq!['\t'] + after),
        config_line(tabs + after) == config_line(after),
        config_line(before + tabs) == config_line(before),
{
    let nothing = Seq::<char>::empty();
    assert(is_blank(tabs)) by {
        assert(is_white('\t'));
    }
    assert(is_tabs(seq!['\t']));
    lemma_blank_at_tabs(before, tabs, after);
    lemma_blank_at_tabs(before, seq!['\t'], after);
    lemma_columns_at_tabs(before, tabs, after);
    lemma_columns_at_tabs(before, seq!['\t'], after);
    lemma_no_columns();
    lemma_columns_at_tabs(nothing, tabs, after);
    lemma_blank_at_tabs(nothing, tabs, after);
    assert(nothing + tabs + after =~= tabs + after);
    assert(columns_of(nothing) + columns_of(after) =~= columns_of(after));
    lemma_columns_at_tabs(before, tabs, nothing);
    lemma_blank_at_tabs(before, tabs, nothing);
    assert(before + tabs + nothing =~= before + tabs);
    assert(columns_of(before) + columns_of(nothing) =~= columns_of(before));
}

/// A line counts for what it says: a configuration stays the same when a line is replaced
/// by one that says the same.
pub proof fn law_lines_count_for_what_they_say(
    front: Seq<Seq<char>>,
    line: Seq<char>,
    other: Seq<char>,
    back: Seq<Seq<char>>,
    is_dir: spec_fn(Seq<char>) -> bool,
)
    requires
        config_line(line) == config_line(other),
    ensures
        loaded(front + seq![line] + back, is_dir) == loaded(front + seq![other] + back, is_dir),
    decreases back.len(),
{
    let lines = front + seq![line] + back;
    let others = front + seq![other] + back;
    if back.len() == 0 {
        assert(lines.drop_last() =~= front);
        assert(others.drop_last() =~= front);
    } else {
        assert(lines.drop_last() =~= front + seq![line] + back.drop_last());
        assert(others.drop_last() =~= front + seq![other] + back.drop_last());
        law_lines_count_for_what_they_say(front, line, other, back.drop_last(), is_dir);
    }
}

/// A configuration stays the same with a run of tabs in the place of a tab.
pub proof fn law_longer_tab_runs_load_the_same(
    front: Seq<Seq<char>>,
    before: Seq<char>,
    tabs: Seq<char>,
    after: Seq<char>,
    back: Seq<Seq<char>>,
    is_dir: spec_fn(Seq<char>) -> bool,
)
    requires
        is_tabs(tabs),
    ensures
        loaded(front + seq![before + tabs + after] + back, is_dir) == loaded(
            front + seq![before + seq!['\t'] + after] + back,
            is_dir,
        ),
{
    law_tab_runs_are_irrelevant(before, tabs, after);
    law_lines_count_for_what_they_say(
        front,
        before + tabs + after,
        before + seq!['\t'] + after,
        back,
        is_dir,
    );
}

/// A blank line adds nothing to a configuration, wherever it stands.
pub proof fn law_blank_lines_are_ignored(
    front: Seq<Seq<char>>,
    line: Seq<char>,
    back: Seq<Seq<char>>,
    is_dir: spec_fn(Seq<char>) -> bool,
)
    requires
        is_blank(line),
    ensures
        loaded(front + seq![line] + back, is_dir) == loaded(front + back, is_dir),
    decreases back.len(),
{
    let lines = front + seq![line] + back;
    if back.len() == 0 {
        assert(lines.drop_last() =~= front);
        assert(front + back =~= front);
    } else {
        assert(lines.drop_last() =~= front + seq![line] + back.drop_last());
        assert((front + back).drop_last() =~= front + back.drop_last());
        law_blank_lines_are_ignored(front, line, back.drop_last(), is_dir);
    }
}

/// Whether a line is blank, or has four columns that the file system does not contradict.
pub open spec fn is_usable(line: Seq<char>, is_dir: spec_fn(Seq<char>) -> bool) -> bool {
    match config_line(line) {
        Ok(None) => true,
        Ok(Some(l)) => refusal(l, is_dir) is None,
        Err(_) => false,
    }
}

/// What the last line about a mount point says.
pub open spec fn last_about(lines: Seq<Seq<char>>, mount: Seq<char>) -> Option<
    ConfigLine<Seq<char>>,
>
    decreases lines.len(),
{
    if lines.len() == 0 {
        None
    } else {
        match config_line(lines.last()) {
            Ok(Some(l)) if l.mount == mount => Some(l),
            _ => last_about(lines.drop_last(), mount),
        }
    }
}

/// The entry that a line makes, where there is one.
pub open spec fn entry_about(lines: Seq<Seq<char>>, mount: Seq<char>) -> Option<
    ConfigEntry<Seq<char>>,
> {
    match last_about(lines, mount) {
        Some(l) => Some(entry_of(l)),
        None => None,
    }
}

/// Lines make a configuration where each of them can be used, and then a mount point has
/// the entry of the last line about it.
pub proof fn law_configuration_is_its_last_lines(
    lines: Seq<Seq<char>>,
    is_dir: spec_fn(Seq<char>) -> bool,
)
    ensures
        loaded(lines, is_dir) is Ok <==> forall|i: int|
            0 <= i < lines.len() ==> is_usable(#[trigger] lines[i], is_dir),
        loaded(lines, is_dir) matches Ok(entries) ==> forall|mount: Seq<char>| #[trigger]
            lookup(entries, mount) == entry_about(lines, mount),
    decreases lines.len(),
{
    if lines.len() > 0 {
        let before = lines.drop_last();
        law_configuration_is_its_last_lines(before, is_dir);
        if forall|i: int| 0 <= i < lines.len() ==> is_usable(#[trigger] lines[i], is_dir) {
            assert forall|i: int| 0 <= i < before.len() implies is_usable(
                #[trigger] before[i],
                is_dir,
            ) by {
                assert(before[i] == lines[i]);
            }
            assert(is_usable(lines[lines.len() - 1], is_dir));
        }
        if let Ok(entries) = loaded(lines, is_dir) {
            assert forall|i: int| 0 <= i < lines.len() implies is_usable(
                #[trigger] lines[i],
                is_dir,
            ) by {
                if i < before.len() {
                    assert(before[i] == lines[i]);
                }
            }
            assert forall|mount: Seq<char>| #[trigger]
                lookup(entries, mount) == entry_about(lines, mount) by {
                let earlier = loaded(before, is_dir)->Ok_0;
                assert(lookup(earlier, mount) == entry_about(before, mount));
                if let Ok(Some(l)) = config_line(lines.last()) {
                    lemma_lookup_put(earlier, l.mount, entry_of(l), mount);
                }
            }
        }
    }
}

proof fn lemma_last_about_concat(a: Seq<Seq<char>>, b: Seq<Seq<char>>, mount: Seq<char>)
    ensures
        last_about(a + b, mount) == if last_about(b, mount) is Some {
            last_about(b, mount)
        } else {
            last_about(a, mount)
        },
    decreases b.len(),
{
    if b.len() == 0 {
        assert(a + b =~= a);
    } else {
        assert((a + b).drop_last() =~= a + b.drop_last());
        lemma_last_about_concat(a, b.drop_last(), mount);
    }
}

/// The last line about a mount point where a line stands between others.
proof fn lemma_last_about_around(
    front: Seq<Seq<char>>,
    x: Seq<char>,
    middle: Seq<Seq<char>>,
    y: Seq<char>,
    back: Seq<Seq<char>>,
    mount: Seq<char>,
)
    ensures
        last_about(front + seq![x] + middle + seq![y] + back, mount) == if last_about(
            back,
            mount,
        ) is Some {
            last_about(back, mount)
        } else if last_about(seq![y], mount) is Some {
            last_about(seq![y], mount)
        } else if last_about(middle, mount) is Some {
            last_about(middle, mount)
        } else if last_about(seq![x], mount) is Some {
            last_about(seq![x], mount)
        } else {
            last_about(front, mount)
        },
{
    lemma_last_about_concat(front, seq![x], mount);
    lemma_last_about_concat(front + seq![x], middle, mount);
    lemma_last_about_concat(front + seq![x] + middle, seq![y], mount);
    lemma_last_about_concat(front + seq![x] + middle + seq![y], back, mount);
}

/// Two lines about different mount points can change places, where no line between them is
/// about either: each mount point keeps its entry.
pub proof fn law_lines_can_change_places(
    front: Seq<Seq<char>>,
    x: Seq<char>,
    middle: Seq<Seq<char>>,
    y: Seq<char>,
    back: Seq<Seq<char>>,
    is_dir: spec_fn(Seq<char>) -> bool,
)
    requires
        config_line(x) matches Ok(Some(l)) && config_line(y) matches Ok(Some(k)) && l.mount
            != k.mount && last_about(middle, l.mount) is None && last_about(middle, k.mount) is None,
    ensures
        ({
            let before = loaded(front + seq![x] + middle + seq![y] + back, is_dir);
            let after = loaded(front + seq![y] + middle + seq![x] + back, is_dir);
            &&& before is Ok <==> after is Ok
            &&& before is Ok ==> forall|mount: Seq<char>| #[trigger]
                lookup(before->Ok_0, mount) == lookup(after->Ok_0, mount)
        }),
{
    let lines = front + seq![x] + middle + seq![y] + back;
    let others = front + seq![y] + middle + seq![x] + back;
    law_configuration_is_its_last_lines(lines, is_dir);
    law_configuration_is_its_last_lines(others, is_dir);
    lemma_usable_after_change(front, x, middle, y, back, is_dir);
    lemma_usable_after_change(front, y, middle, x, back, is_dir);
    if loaded(lines, is_dir) is Ok {
        assert forall|mount: Seq<char>| #[trigger]
            lookup(loaded(lines, is_dir)->Ok_0, mount) == lookup(
                loaded(others, is_dir)->Ok_0,
                mount,
            ) by {
            lemma_last_about_around(front, x, middle, y, back, mount);
            lemma_last_about_around(front, y, middle, x, back, mount);
            assert(last_about(Seq::empty(), mount) is None);
            assert(seq![x].drop_last() =~= Seq::empty());
            assert(seq![y].drop_last() =~= Seq::empty());
            assert(entry_about(lines, mount) == entry_about(others, mount));
        }
    }
}

proof fn lemma_usable_after_change(
    front: Seq<Seq<char>>,
    x: Seq<char>,
    middle: Seq<Seq<char>>,
    y: Seq<char>,
    back: Seq<Seq<char>>,
    is_dir: spec_fn(Seq<char>) -> bool,
)
    ensures
        ({
            let lines = front + seq![x] + middle + seq![y] + back;
            let others = front + seq![y] + middle + seq![x] + back;
            (forall|i: int| 0 <= i < lines.len() ==> is_usable(#[trigger] lines[i], is_dir)) ==> (
            forall|i: int| 0 <= i < others.len() ==> is_usable(#[trigger] others[i], is_dir))
        }),
{
    let lines = front + seq![x] + middle + seq![y] + back;
    let others = front + seq![y] + middle + seq![x] + back;
    let p = front.len() as int;
    let q = p + 1 + middle.len();
    if forall|i: int| 0 <= i < lines.len() ==> is_usable(#[trigger] lines[i], is_dir) {
        assert forall|i: int| 0 <= i < others.len() implies is_usable(
            #[trigger] others[i],
            is_dir,
        ) by {
            if i == p {
                assert(others[i] == lines[q]);
            } else if i == q {
                assert(others[i] == lines[p]);
            } else {
                assert(others[i] == lines[i]);
            }
        }
    }
}

/// A text that can stand in a column.
pub open spec fn is_column(s: Seq<char>) -> bool {
    s.len() > 0 && !s.contains('\t')
}

proof fn lemma_one_column(s: Seq<char>)
    requires
        is_column(s),
    ensures
        columns_of(s) == seq![s],
{
    let nothing = Seq::<char>::empty();
    lemma_split_append(nothing, s, '\t');
    assert(nothing + s =~= s);
    let pieces = split(s, '\t');
    assert(pieces =~= seq![s]);
    assert(pieces.drop_last() =~= Seq::empty());
    assert(nonempty(pieces.drop_last()) =~= Seq::empty());
    assert(nonempty(pieces) =~= seq![s]);
}

/// Columns with a tab between them are read back, however many there are.
pub proof fn law_columns_are_read_back(columns: Seq<Seq<char>>)
    requires
        columns.len() > 0,
        forall|i: int| 0 <= i < columns.len() ==> is_column(#[trigger] columns[i]),
    ensures
        columns_of(joined(columns, seq!['\t'])) == columns,
    decreases columns.len(),
{
    let last = columns[columns.len() - 1];
    assert(is_column(last));
    lemma_one_column(last);
    if columns.len() == 1 {
        assert(columns =~= seq![last]);
    } else {
        let before = columns.drop_last();
        assert forall|i: int| 0 <= i < before.len() implies is_column(#[trigger] before[i]) by {
            assert(before[i] == columns[i]);
        }
        law_columns_are_read_back(before);
        lemma_columns_at_tab(joined(before, seq!['\t']), last);
        assert(before + seq![last] =~= columns);
    }
}

/// The line that is written for a mount point and its series.
pub open spec fn written(
    mount: Seq<char>,
    root: Seq<char>,
    dir: Seq<char>,
    prefix: Seq<char>,
) -> Seq<char> {
    mount + seq!['\t'] + root + seq!['\t'] + dir + seq!['\t'] + prefix
}

/// A written line is read back as just that mount point, root, directory and prefix.
pub proof fn law_config_line_is_read_back(
    mount: Seq<char>,
    root: Seq<char>,
    dir: Seq<char>,
    prefix: Seq<char>,
)
    requires
        is_column(mount),
        is_column(root),
        is_column(dir),
        is_column(prefix),
        !(is_blank(mount) && is_blank(root) && is_blank(dir) && is_blank(prefix)),
    ensures
        config_line(written(mount, root, dir, prefix)) == Ok::<
            Option<ConfigLine<Seq<char>>>,
            BtramError<Seq<char>>,
        >(Some(ConfigLine { mount, root, dir, prefix })),
{
    let line = written(mount, root, dir, prefix);
    let tab = seq!['\t'];
    lemma_one_column(mount);
    lemma_one_column(root);
    lemma_one_column(dir);
    lemma_one_column(prefix);
    lemma_columns_at_tab(mount, root);
    lemma_columns_at_tab(mount + tab + root, dir);
    lemma_columns_at_tab(mount + tab + root + tab + dir, prefix);
    assert(columns_of(line) =~= seq![mount, root, dir, prefix]);
    assert(is_blank(tab)) by {
        assert(is_white('\t'));
    }
    lemma_blank_at_tabs(mount, tab, root);
    lemma_blank_at_tabs(mount + tab + root, tab, dir);
    lemma_blank_at_tabs(mount + tab + root + tab + dir, tab, prefix);
}

/// A line that is not blank and has fewer or more than four columns is refused.
pub proof fn law_other_lines_are_refused(columns: Seq<Seq<char>>)
    requires
        columns.len() > 0,
        columns.len() != 4,
        forall|i: int| 0 <= i < columns.len() ==> is_column(#[trigger] columns[i]),
        !is_blank(joined(columns, seq!['\t'])),
    ensures
        config_line(joined(columns, seq!['\t'])) == Err::<
            Option<ConfigLine<Seq<char>>>,
            BtramError<Seq<char>>,
        >(BtramError::BadConfig("Invalid number of columns"@)),
{
    law_columns_are_read_back(columns);
}

/// A written line adds just its entry to a configuration where its mount point, its root and
/// its directory below the root are directories; else the first that is not is named in the
/// error.
pub proof fn law_written_line_adds_its_entry(
    lines: Seq<Seq<char>>,
    mount: Seq<char>,
    root: Seq<char>,
    dir: Seq<char>,
    prefix: Seq<char>,
    is_dir: spec_fn(Seq<char>) -> bool,
    other: Seq<char>,
)
    requires
        loaded(lines, is_dir) is Ok,
        is_column(mount),
        is_column(root),
        is_column(dir),
        is_column(prefix),
        !(is_blank(mount) && is_blank(root) && is_blank(dir) && is_blank(prefix)),
    ensures
        ({
            let before = loaded(lines, is_dir)->Ok_0;
            let after = loaded(lines.push(written(mount, root, dir, prefix)), is_dir);
            if !is_dir(mount) {
                after == Err::<Entries, BtramError<Seq<char>>>(
                    BtramError::BadConfig("Mount point '"@ + mount + "' is not a directory"@),
                )
            } else if !is_dir(root) {
                after == Err::<Entries, BtramError<Seq<char>>>(
                    BtramError::BadConfig("Root '"@ + root + "' is not a directory"@),
                )
            } else if !is_dir(root + "/"@ + dir) {
                after == Err::<Entries, BtramError<Seq<char>>>(
                    BtramError::BadConfig(
                        "Snapshot directory '"@ + (root + "/"@ + dir) + "' is not a directory"@,
                    ),
                )
            } else {
                &&& after is Ok
                &&& lookup(after->Ok_0, mount) == Some(
                    ConfigEntry { root, dir, prefix, done: false },
                )
                &&& other != mount ==> lookup(after->Ok_0, other) == lookup(before, other)
            }
        }),
{
    let line = written(mount, root, dir, prefix);
    let before = loaded(lines, is_dir)->Ok_0;
    law_config_line_is_read_back(mount, root, dir, prefix);
    assert(lines.push(line).drop_last() =~= lines);
    let l = ConfigLine { mount, root, dir, prefix };
    lemma_lookup_put(before, mount, entry_of(l), mount);
    lemma_lookup_put(before, mount, entry_of(l), other);
}

} // verus!
