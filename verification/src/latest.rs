//! The search for the latest clean snapshot of a series.

use crate::error::{result_view, BtramError};
use crate::message::{Message, Stream};
use crate::subvol::{impurity, path_of, subvol_path, sv_impure, SubvolInfo};
use crate::text::{before, lemma_precedes_irreflexive, lemma_precedes_total};
use crate::text::{is_number, law_smaller_number_precedes, lemma_precedes_transitive, number};
use crate::text::precedes;
use vstd::prelude::*;

verus! {

/// A search for the latest clean snapshot of a series, and what it has found so
/// far. The text type `T` is `String` in programs and `Seq<char>` in
/// specifications.
#[derive(Debug, PartialEq, Eq)]
pub struct LatestSearch<T = String> {
    /// Where the root of the file system is mounted.
    pub root_mount: T,
    /// The directory of the series, below the root.
    pub ssdir: T,
    /// The prefix of the series.
    pub prefix: T,
    /// The name of the latest clean snapshot so far.
    pub latest: Option<T>,
}

impl DeepView for LatestSearch {
    type V = LatestSearch<Seq<char>>;

    open spec fn deep_view(&self) -> LatestSearch<Seq<char>> {
        LatestSearch {
            root_mount: self.root_mount@,
            ssdir: self.ssdir@,
            prefix: self.prefix@,
            latest: self.latest.deep_view(),
        }
    }
}

/// The search that has found nothing yet. A series has a prefix.
pub open spec fn search_begun(
    root_mount: Seq<char>,
    ssdir: Seq<char>,
    ssn_prefix: Seq<char>,
) -> Result<LatestSearch<Seq<char>>, BtramError<Seq<char>>> {
    if ssn_prefix.len() == 0 {
        Err(BtramError::BadConfig("Empty snapshot prefix"@))
    } else {
        Ok(LatestSearch { root_mount, ssdir, prefix: ssn_prefix, latest: None })
    }
}

/// Begins the search for the latest clean snapshot of a series.
pub fn find_latest(root_mount: &str, ssdir: &str, ssn_prefix: &str) -> (search: Result<
    LatestSearch,
    BtramError,
>)
    ensures
        result_view(search) == search_begun(root_mount@, ssdir@, ssn_prefix@),
{
    if ssn_prefix.is_empty() {
        return Err(BtramError::BadConfig("Empty snapshot prefix".to_owned()));
    }
    Ok(
        LatestSearch {
            root_mount: root_mount.to_owned(),
            ssdir: ssdir.to_owned(),
            prefix: ssn_prefix.to_owned(),
            latest: None,
        },
    )
}

/// The glob pattern of the paths that may be snapshots of the series.
pub open spec fn glob_of(search: LatestSearch<Seq<char>>) -> Seq<char> {
    search.root_mount + "/"@ + search.ssdir + "/"@ + search.prefix + ".*"@
}

/// The search after a snapshot of the series was looked at: a clean one counts
/// where nothing later is known.
pub open spec fn considered(
    search: LatestSearch<Seq<char>>,
    candidate: Seq<char>,
    info: SubvolInfo<Seq<char>>,
) -> LatestSearch<Seq<char>> {
    if impurity(info) is None && (search.latest is None || precedes(search.latest->0, candidate)) {
        LatestSearch { latest: Some(candidate), ..search }
    } else {
        search
    }
}

/// What is told of a snapshot that is not clean.
pub open spec fn ignored(
    search: LatestSearch<Seq<char>>,
    candidate: Seq<char>,
    status: Seq<char>,
) -> Message<Seq<char>> {
    Message {
        stream: Stream::Stderr,
        text: "Warning: ignoring "@ + status + " subvol '"@ + subvol_path(search.ssdir, candidate)
            + "'"@,
    }
}

/// What is told when a snapshot of the series was looked at.
pub open spec fn consideration(
    search: LatestSearch<Seq<char>>,
    candidate: Seq<char>,
    info: SubvolInfo<Seq<char>>,
) -> Option<Message<Seq<char>>> {
    match impurity(info) {
        Some(status) => Some(ignored(search, candidate, status)),
        None => None,
    }
}

/// The path of the latest clean snapshot, below the root.
pub open spec fn found(search: LatestSearch<Seq<char>>) -> Option<Seq<char>> {
    match search.latest {
        Some(ssn) => Some(subvol_path(search.ssdir, ssn)),
        None => None,
    }
}

impl LatestSearch {
    /// The glob pattern of the paths that may be snapshots of the series.
    pub fn glob_pattern(&self) -> (pattern: String)
        ensures
            pattern@ == glob_of(self.deep_view()),
    {
        let mut pattern = self.root_mount.as_str().to_owned();
        pattern.append("/");
        pattern.append(self.ssdir.as_str());
        pattern.append("/");
        pattern.append(self.prefix.as_str());
        pattern.append(".*");
        pattern
    }

    /// Looks at one snapshot of the series.
    pub fn consider(&mut self, candidate: String, info: &SubvolInfo) -> (message: Option<Message>)
        ensures
            final(self).deep_view() == considered(
                old(self).deep_view(),
                candidate@,
                info.deep_view(),
            ),
            message.deep_view() == consideration(
                old(self).deep_view(),
                candidate@,
                info.deep_view(),
            ),
    {
        match sv_impure(info) {
            Some(status) => {
                let mut text = "Warning: ignoring ".to_owned();
                text.append(status);
                text.append(" subvol '");
                text.append(path_of(self.ssdir.as_str(), candidate.as_str()).as_str());
                text.append("'");
                Some(Message { stream: Stream::Stderr, text })
            },
            None => {
                let newer = match &self.latest {
                    Some(latest) => before(latest.as_str(), candidate.as_str()),
                    None => true,
                };
                if newer {
                    self.latest = Some(candidate);
                }
                None
            },
        }
    }

    /// The path of the latest clean snapshot, below the root.
    pub fn result(&self) -> (sv: Option<String>)
        ensures
            sv.deep_view() == found(self.deep_view()),
    {
        match &self.latest {
            Some(ssn) => Some(path_of(self.ssdir.as_str(), ssn.as_str())),
            None => None,
        }
    }
}

/// Snapshots of a series, each with what was told of it, in the order in which they
/// were looked at.
pub type Considered = Seq<(Seq<char>, SubvolInfo<Seq<char>>)>;

/// The search after all the given snapshots were looked at.
pub open spec fn consider_all(
    search: LatestSearch<Seq<char>>,
    snapshots: Considered,
) -> LatestSearch<Seq<char>>
    decreases snapshots.len(),
{
    if snapshots.len() == 0 {
        search
    } else {
        considered(
            consider_all(search, snapshots.drop_last()),
            snapshots.last().0,
            snapshots.last().1,
        )
    }
}

/// Whether a clean snapshot of the given name is among `snapshots`.
pub open spec fn has_clean(snapshots: Considered, name: Seq<char>) -> bool {
    exists|i: int|
        0 <= i < snapshots.len() && (#[trigger] snapshots[i]).0 == name && impurity(snapshots[i].1)
            is None
}

/// A search finds a clean snapshot where there is one, and no clean snapshot is
/// later than the one that it finds.
pub proof fn law_latest_is_greatest(search: LatestSearch<Seq<char>>, snapshots: Considered)
    requires
        search.latest is None,
    ensures
        match consider_all(search, snapshots).latest {
            Some(latest) => {
                &&& has_clean(snapshots, latest)
                &&& forall|name: Seq<char>| #[trigger]
                    has_clean(snapshots, name) ==> name == latest || precedes(name, latest)
            },
            None => forall|name: Seq<char>| !has_clean(snapshots, name),
        },
    decreases snapshots.len(),
{
    if snapshots.len() > 0 {
        let before = snapshots.drop_last();
        law_latest_is_greatest(search, before);
        let n = snapshots.len() - 1;
        let last = snapshots.last().0;
        let earlier = consider_all(search, before).latest;
        assert forall|name: Seq<char>| #[trigger] has_clean(snapshots, name) implies has_clean(
            before,
            name,
        ) || (name == last && impurity(snapshots.last().1) is None) by {
            let i = choose|i: int|
                0 <= i < snapshots.len() && (#[trigger] snapshots[i]).0 == name && impurity(
                    snapshots[i].1,
                ) is None;
            if i < n {
                assert(before[i] == snapshots[i]);
            }
        }
        assert forall|name: Seq<char>| #[trigger] has_clean(before, name) implies has_clean(
            snapshots,
            name,
        ) by {
            let i = choose|i: int|
                0 <= i < before.len() && (#[trigger] before[i]).0 == name && impurity(before[i].1)
                    is None;
            assert(snapshots[i] == before[i]);
        }
        if impurity(snapshots.last().1) is None {
            assert(snapshots[n] == snapshots.last());
            assert(has_clean(snapshots, last));
            if let Some(latest) = earlier {
                lemma_precedes_total(latest, last);
                if precedes(latest, last) {
                    assert forall|name: Seq<char>| #[trigger]
                        has_clean(snapshots, name) implies name == last || precedes(name, last) by {
                        if has_clean(before, name) && precedes(name, latest) {
                            lemma_precedes_transitive(name, latest, last);
                        }
                    }
                }
            }
        }
    }
}

/// What a search finds does not depend on the order in which the snapshots are
/// listed, nor on how often, nor on those that are not clean.
pub proof fn law_order_is_irrelevant(
    search: LatestSearch<Seq<char>>,
    snapshots: Considered,
    others: Considered,
)
    requires
        search.latest is None,
        forall|name: Seq<char>| has_clean(snapshots, name) <==> has_clean(others, name),
    ensures
        consider_all(search, snapshots).latest == consider_all(search, others).latest,
{
    law_latest_is_greatest(search, snapshots);
    law_latest_is_greatest(search, others);
    let a = consider_all(search, snapshots).latest;
    let b = consider_all(search, others).latest;
    if a is Some {
        assert(has_clean(others, a->0));
    }
    if b is Some {
        assert(has_clean(snapshots, b->0));
    }
    if a is Some && b is Some && a != b {
        lemma_precedes_transitive(a->0, b->0, a->0);
        lemma_precedes_irreflexive(a->0);
    }
}

/// To look at snapshots changes what was found and nothing else of a search.
pub proof fn law_search_stays(search: LatestSearch<Seq<char>>, snapshots: Considered)
    ensures
        consider_all(search, snapshots).root_mount == search.root_mount,
        consider_all(search, snapshots).ssdir == search.ssdir,
        consider_all(search, snapshots).prefix == search.prefix,
    decreases snapshots.len(),
{
    if snapshots.len() > 0 {
        law_search_stays(search, snapshots.drop_last());
    }
}

/// The paths that are listed are those of the directory of the series that begin with the
/// prefix and a dot.
pub proof fn law_series_is_listed(search: LatestSearch<Seq<char>>)
    ensures
        glob_of(search) == search.root_mount + "/"@ + (search.ssdir + "/"@ + (search.prefix
            + ".*"@)),
{
    assert(glob_of(search) =~= search.root_mount + "/"@ + (search.ssdir + "/"@ + (search.prefix
        + ".*"@)));
}

/// Every series with a prefix can be searched, in its own directory and from nothing on.
pub proof fn law_series_needs_a_prefix(
    root_mount: Seq<char>,
    ssdir: Seq<char>,
    prefix: Seq<char>,
)
    ensures
        prefix.len() == 0 ==> search_begun(root_mount, ssdir, prefix) == Err::<
            LatestSearch<Seq<char>>,
            BtramError<Seq<char>>,
        >(BtramError::BadConfig("Empty snapshot prefix"@)),
        prefix.len() > 0 ==> (search_begun(root_mount, ssdir, prefix) matches Ok(search)
            && search.root_mount == root_mount && search.ssdir == ssdir && search.prefix == prefix
            && search.latest is None),
{
}

/// What is found is the latest snapshot's path in the directory of the series, and of a
/// snapshot that is not clean it is told why and where it is.
pub proof fn law_findings_name_the_snapshot(
    search: LatestSearch<Seq<char>>,
    candidate: Seq<char>,
    info: SubvolInfo<Seq<char>>,
)
    ensures
        found(search) is Some <==> search.latest is Some,
        search.latest matches Some(name) ==> found(search) == Some(search.ssdir + "/"@ + name),
        impurity(info) is None ==> consideration(search, candidate, info) is None,
        impurity(info) matches Some(status) ==> consideration(search, candidate, info) == Some(
            Message {
                stream: Stream::Stderr,
                text: "Warning: ignoring "@ + status + " subvol '"@ + (search.ssdir + "/"@
                    + candidate) + "'"@,
            },
        ),
{
}

/// A search among snapshots whose timestamps are numbers of one length finds one with the
/// greatest number of all that are clean.
pub proof fn law_latest_has_the_greatest_number(
    search: LatestSearch<Seq<char>>,
    snapshots: Considered,
    a: Seq<char>,
    b: Seq<char>,
)
    requires
        search.latest is None,
        consider_all(search, snapshots).latest == Some(search.prefix + "."@ + b),
        has_clean(snapshots, search.prefix + "."@ + a),
        is_number(a),
        is_number(b),
        a.len() == b.len(),
    ensures
        has_clean(snapshots, search.prefix + "."@ + b),
        number(a) <= number(b),
{
    law_latest_is_greatest(search, snapshots);
    if number(b) < number(a) {
        law_smaller_number_precedes(search.prefix + "."@, b, a);
        lemma_precedes_irreflexive(search.prefix + "."@ + a);
    }
}

} // verus!
