//! The lines of the mount table.

use crate::pattern::{captures, captures_of, group, group_of, Groups, MOUNT_LINE};
use crate::pattern::{is_gap, is_mount_parting, is_one_line, is_preferred_parting, is_solid};
use crate::pattern::{mount_line, mount_line_match};
use crate::table::Table;
use crate::text::{is_white, law_split_first_parts, lemma_split_first_at, split, split_first};
use crate::text::{split_once, split_text};
use vstd::prelude::*;

verus! {

/// One mounted file system.
#[derive(Debug)]
pub struct MountInfo {
    pub blkdev: String,
    pub mount: String,
    pub fstype: String,
    pub options: Table<Option<String>>,
}

/// What a `MountInfo` stands for.
pub ghost struct MountFields {
    pub blkdev: Seq<char>,
    pub mount: Seq<char>,
    pub fstype: Seq<char>,
    pub options: Map<Seq<char>, Option<Seq<char>>>,
}

impl DeepView for MountInfo {
    type V = MountFields;

    open spec fn deep_view(&self) -> MountFields {
        MountFields {
            blkdev: self.blkdev@,
            mount: self.mount@,
            fstype: self.fstype@,
            options: self.options.deep_view(),
        }
    }
}

/// The name of a mount option and its value, where it has one.
pub open spec fn option_of(text: Seq<char>) -> (Seq<char>, Option<Seq<char>>) {
    match split_first(text, '=') {
        Some((name, value)) => (name, Some(value)),
        None => (text, None),
    }
}

/// The options that the given texts set, the later ones over the earlier ones.
pub open spec fn options_of(texts: Seq<Seq<char>>) -> Map<Seq<char>, Option<Seq<char>>>
    decreases texts.len(),
{
    if texts.len() == 0 {
        Map::empty()
    } else {
        let (name, value) = option_of(texts.last());
        options_of(texts.drop_last()).insert(name, value)
    }
}

/// The mounted file system that the groups of a mount line describe.
pub open spec fn mount_fields(groups: Groups) -> Option<MountFields> {
    match (group_of(groups, 1), group_of(groups, 2), group_of(groups, 3), group_of(groups, 4)) {
        (Some(blkdev), Some(mount), Some(fstype), Some(options)) => Some(
            MountFields { blkdev, mount, fstype, options: options_of(split(options, ',')) },
        ),
        _ => None,
    }
}

/// Reads a comma-separated list of mount options.
pub fn parse_options(text: &str) -> (options: Table<Option<String>>)
    ensures
        options.deep_view() == options_of(split(text@, ',')),
{
    let pieces = split_text(text, ',');
    let ghost all = split(text@, ',');
    let mut options: Table<Option<String>> = Table::new();
    let mut i: usize = 0;
    assert(all.take(0) =~= Seq::empty());
    while i < pieces.len()
        invariant
            i <= pieces.len(),
            pieces.deep_view() == all,
            options.deep_view() == options_of(all.take(i as int)),
        decreases pieces.len() - i,
    {
        let piece = pieces[i];
        assert(piece@ == all[i as int]);
        assert(all.take(i + 1).drop_last() =~= all.take(i as int));
        match split_once(piece, '=') {
            Some((name, value)) => options.insert(name.to_owned(), Some(value.to_owned())),
            None => options.insert(piece.to_owned(), None),
        }
        i += 1;
    }
    assert(all.take(i as int) =~= all);
    options
}

/// The mounted file system that the groups of a mount line describe.
pub fn mount_info(groups: &Option<Vec<Option<String>>>) -> (info: Option<MountInfo>)
    ensures
        info.deep_view() == mount_fields(groups.deep_view()),
{
    match (group(groups, 1), group(groups, 2), group(groups, 3), group(groups, 4)) {
        (Some(blkdev), Some(mount), Some(fstype), Some(options)) => Some(
            MountInfo {
                blkdev: blkdev.to_owned(),
                mount: mount.to_owned(),
                fstype: fstype.to_owned(),
                options: parse_options(options),
            },
        ),
        _ => None,
    }
}

/// The line in which a mounted file system is reported.
pub open spec fn report_line(
    blkdev: Seq<char>,
    mount: Seq<char>,
    fstype: Seq<char>,
    options: Seq<char>,
) -> Seq<char> {
    blkdev + " on "@ + mount + " type "@ + fstype + " ("@ + options + ")"@
}

/// Whether no white space of `s` stands directly before an opening bracket.
pub open spec fn no_opening_after_white(s: Seq<char>) -> bool {
    forall|i: int| 0 < i < s.len() && #[trigger] s[i] == '(' ==> !is_white(s[i - 1])
}

/// Whether `line` has these four fields without a doubt: the type holds no white space, a
/// single white space parts it from the options, and no other opening bracket follows
/// white space. How much white space stands before the type does not matter.
pub open spec fn is_clear_parting(
    line: Seq<char>,
    blkdev: Seq<char>,
    mount: Seq<char>,
    fstype: Seq<char>,
    options: Seq<char>,
    gaps: Seq<Seq<char>>,
) -> bool {
    &&& is_mount_parting(line, blkdev, mount, fstype, options, gaps)
    &&& is_solid(fstype)
    &&& no_opening_after_white(options)
    &&& gaps[4].len() == 1
}

/// Reads one line of the mount table.
pub fn parse_mount(line: &str) -> (info: Option<MountInfo>)
    ensures
        info.deep_view() == mount_fields(captures_of(MOUNT_LINE@, line@)),
        // Which lines are read, and how they are parted.
        mount_line_match(line@, captures_of(MOUNT_LINE@, line@)),
        // A reported file system is read back.
        forall|blkdev: Seq<char>, mount: Seq<char>, fstype: Seq<char>, options: Seq<char>|
            {
                &&& line@ == #[trigger] report_line(blkdev, mount, fstype, options)
                &&& is_solid(blkdev) && is_solid(mount) && is_solid(fstype)
                &&& is_one_line(options) && no_opening_after_white(options)
            } ==> info.deep_view() == Some(
                MountFields { blkdev, mount, fstype, options: options_of(split(options, ',')) },
            ),
        // More white space before the type makes no difference.
        forall|
            blkdev: Seq<char>,
            mount: Seq<char>,
            fstype: Seq<char>,
            options: Seq<char>,
            gaps: Seq<Seq<char>>,
        | #[trigger]
            is_clear_parting(line@, blkdev, mount, fstype, options, gaps) ==> info.deep_view()
                == Some(
                MountFields { blkdev, mount, fstype, options: options_of(split(options, ',')) },
            ),
{
    match captures(MOUNT_LINE, line) {
        Ok(groups) => {
            proof {
                assert forall|
                    blkdev: Seq<char>,
                    mount: Seq<char>,
                    fstype: Seq<char>,
                    options: Seq<char>,
                    gaps: Seq<Seq<char>>,
                | #[trigger]
                    is_clear_parting(line@, blkdev, mount, fstype, options, gaps) implies mount_fields(
                    groups.deep_view(),
                ) == Some(
                    MountFields { blkdev, mount, fstype, options: options_of(split(options, ',')) },
                ) by {
                    lemma_clear_parting_is_read(
                        line@,
                        blkdev,
                        mount,
                        fstype,
                        options,
                        gaps,
                        groups.deep_view(),
                    );
                }
                assert forall|
                    blkdev: Seq<char>,
                    mount: Seq<char>,
                    fstype: Seq<char>,
                    options: Seq<char>,
                |
                    {
                        &&& line@ == #[trigger] report_line(blkdev, mount, fstype, options)
                        &&& is_solid(blkdev) && is_solid(mount) && is_solid(fstype)
                        &&& is_one_line(options) && no_opening_after_white(options)
                    } implies mount_fields(groups.deep_view()) == Some(
                    MountFields { blkdev, mount, fstype, options: options_of(split(options, ',')) },
                ) by {
                    let gap = seq![' '];
                    lemma_report_line_is_clear(blkdev, mount, fstype, options);
                    assert(is_clear_parting(
                        line@,
                        blkdev,
                        mount,
                        fstype,
                        options,
                        seq![gap, gap, gap, gap, gap],
                    ));
                }
            }
            mount_info(&groups)
        },
        Err(_) => None,
    }
}

/// The subvolume that the options of a mount name.
pub open spec fn subvol_of(options: Map<Seq<char>, Option<Seq<char>>>) -> Option<Seq<char>> {
    if options.contains_key("subvol"@) {
        options["subvol"@]
    } else {
        None
    }
}

impl MountInfo {
    /// The subvolume that the mount options name.
    pub fn subvol(&self) -> (sv: Option<&str>)
        ensures
            sv.deep_view() == subvol_of(self.options.deep_view()),
    {
        match self.options.get("subvol") {
            Some(Some(sv)) => Some(sv.as_str()),
            _ => None,
        }
    }
}

proof fn lemma_report_line_is_clear(
    blkdev: Seq<char>,
    mount: Seq<char>,
    fstype: Seq<char>,
    options: Seq<char>,
)
    requires
        is_solid(blkdev),
        is_solid(mount),
        is_solid(fstype),
        is_one_line(options),
        no_opening_after_white(options),
    ensures
        ({
            let gap = seq![' '];
            is_clear_parting(
                report_line(blkdev, mount, fstype, options),
                blkdev,
                mount,
                fstype,
                options,
                seq![gap, gap, gap, gap, gap],
            )
        }),
{
    let gap = seq![' '];
    let gaps = seq![gap, gap, gap, gap, gap];
    reveal_strlit(" on ");
    reveal_strlit("on");
    reveal_strlit(" type ");
    reveal_strlit("type");
    reveal_strlit(" (");
    reveal_strlit("(");
    assert(gap + "on"@ + gap =~= " on "@);
    assert(gap + "type"@ + gap =~= " type "@);
    assert(gap + "("@ =~= " ("@);
    assert(is_one_line(fstype)) by {
        assert(is_white('\n'));
    }
    assert(report_line(blkdev, mount, fstype, options) =~= mount_line(
        blkdev,
        mount,
        fstype,
        options,
        gaps,
    ));
}

/// Two solid texts that the same line begins with, each up to white space, are the
/// same.
proof fn lemma_solid_unique(a: Seq<char>, x: Seq<char>, b: Seq<char>, y: Seq<char>)
    requires
        is_solid(a),
        is_solid(b),
        x.len() > 0,
        y.len() > 0,
        is_white(x[0]),
        is_white(y[0]),
        a + x == b + y,
    ensures
        a == b,
        x == y,
{
    let line = a + x;
    assert(line[a.len() as int] == x[0]);
    assert((b + y)[b.len() as int] == y[0]);
    if a.len() < b.len() {
        assert((b + y)[a.len() as int] == b[a.len() as int]);
    } else if b.len() < a.len() {
        assert(line[b.len() as int] == a[b.len() as int]);
    }
    lemma_cancel(a, x, b, y);
}

/// White space that the same line begins with is the same, where the one ends at a
/// character that is not white and the other is no shorter.
proof fn lemma_gap_unique(gap: Seq<char>, x: Seq<char>, gap1: Seq<char>, y: Seq<char>)
    requires
        is_gap(gap),
        is_gap(gap1),
        x.len() > 0,
        !is_white(x[0]),
        gap.len() <= gap1.len() || (y.len() > 0 && !is_white(y[0])),
        gap + x == gap1 + y,
    ensures
        gap1 == gap,
        x == y,
{
    let line = gap + x;
    assert(line[gap.len() as int] == x[0]);
    if gap1.len() > gap.len() {
        assert((gap1 + y)[gap.len() as int] == gap1[gap.len() as int]);
    } else if gap1.len() < gap.len() {
        assert((gap1 + y)[gap1.len() as int] == y[0]);
        assert(line[gap1.len() as int] == gap[gap1.len() as int]);
    }
    lemma_cancel(gap, x, gap1, y);
}

/// Equal texts that are parted at the same place have equal parts.
proof fn lemma_cancel(a: Seq<char>, x: Seq<char>, b: Seq<char>, y: Seq<char>)
    requires
        a + x == b + y,
        a.len() == b.len(),
    ensures
        a == b,
        x == y,
{
    assert(a =~= (a + x).take(a.len() as int));
    assert(b =~= (b + y).take(b.len() as int));
    assert(x =~= (a + x).skip(a.len() as int));
    assert(y =~= (b + y).skip(b.len() as int));
}

/// A mount line from the file system type on.
spec fn line_end(fstype: Seq<char>, gap: Seq<char>, options: Seq<char>) -> Seq<char> {
    fstype + (gap + ("("@ + (options + ")"@)))
}

/// A mount line from the mount point on.
spec fn line_rest(mount: Seq<char>, gap: Seq<char>, gap1: Seq<char>, end: Seq<char>) -> Seq<char> {
    mount + (gap + ("type"@ + (gap1 + end)))
}

proof fn lemma_mount_line_parts(
    blkdev: Seq<char>,
    mount: Seq<char>,
    fstype: Seq<char>,
    options: Seq<char>,
    gaps: Seq<Seq<char>>,
)
    ensures
        mount_line(blkdev, mount, fstype, options, gaps) == blkdev + (gaps[0] + ("on"@ + (gaps[1]
            + line_rest(mount, gaps[2], gaps[3], line_end(fstype, gaps[4], options))))),
{
    let line = mount_line(blkdev, mount, fstype, options, gaps);
    let end = line_end(fstype, gaps[4], options);
    assert(fstype + gaps[4] + "("@ + options + ")"@ =~= end);
    let rest = line_rest(mount, gaps[2], gaps[3], end);
    assert(mount + gaps[2] + "type"@ + gaps[3] + end =~= rest);
    assert(line =~= blkdev + gaps[0] + "on"@ + gaps[1] + (mount + gaps[2] + "type"@ + gaps[3] + (
    fstype + gaps[4] + "("@ + options + ")"@)));
    assert(blkdev + gaps[0] + "on"@ + gaps[1] + rest =~= blkdev + (gaps[0] + ("on"@ + (gaps[1]
        + rest))));
}

/// The end of a mount line has one way to be parted where the bracket that the options
/// begin with is the only one after white space.
proof fn lemma_line_end_unique(
    fstype: Seq<char>,
    blank: Seq<char>,
    options: Seq<char>,
    fstype1: Seq<char>,
    gap: Seq<char>,
    options1: Seq<char>,
)
    requires
        is_solid(fstype),
        is_gap(blank),
        blank.len() == 1,
        is_one_line(options),
        no_opening_after_white(options),
        is_one_line(fstype1),
        is_gap(gap),
        line_end(fstype, blank, options) == line_end(fstype1, gap, options1),
    ensures
        fstype1 == fstype,
        options1 == options,
{
    reveal_strlit("(");
    reveal_strlit(")");
    let tail = "("@ + (options + ")"@);
    let tail1 = "("@ + (options1 + ")"@);
    let s = line_end(fstype, blank, options);
    let t = line_end(fstype1, gap, options1);
    let at = (fstype1.len() + gap.len()) as int;
    let n = fstype.len() as int;
    assert(t[at] == tail1[0]);
    assert(t[at - 1] == gap[gap.len() - 1]);
    assert(is_white(s[at - 1]) && s[at] == '(');
    assert(at == n + 1) by {
        if at - 1 < n {
            assert(s[at - 1] == fstype[at - 1]);
        } else if at > n + 1 {
            let k = at - n - 2;
            assert(t.len() == at + tail1.len() && s.len() == n + 1 + tail.len());
            assert(s[at] == (blank + tail)[at - n]);
            assert(s[at] == tail[k + 1]);
            assert(s[at] == (options + ")"@)[k]);
            if k == 0 {
                assert(s[at - 1] == tail[0]);
            } else if k < options.len() {
                assert(s[at - 1] == (options + ")"@)[k - 1]);
                assert(options[k] == '(');
            } else {
                assert((options + ")"@)[k] == ')');
            }
        }
    }
    if gap.len() > 1 {
        assert(t[at - 2] == gap[gap.len() - 2]);
        assert(s[at - 2] == fstype[n - 1]);
    }
    lemma_cancel(fstype, blank + tail, fstype1, gap + tail1);
    lemma_cancel(blank, tail, gap, tail1);
    lemma_cancel("("@, options + ")"@, "("@, options1 + ")"@);
    lemma_cancel(options, ")"@, options1, ")"@);
}

/// Two partings of a line have the same device and mount point, and what follows `type`
/// is the same.
proof fn lemma_line_start_unique(
    line: Seq<char>,
    blkdev: Seq<char>,
    mount: Seq<char>,
    fstype: Seq<char>,
    options: Seq<char>,
    gaps: Seq<Seq<char>>,
    blkdev1: Seq<char>,
    mount1: Seq<char>,
    fstype1: Seq<char>,
    options1: Seq<char>,
    gaps1: Seq<Seq<char>>,
)
    requires
        is_mount_parting(line, blkdev, mount, fstype, options, gaps),
        is_mount_parting(line, blkdev1, mount1, fstype1, options1, gaps1),
    ensures
        blkdev1 == blkdev,
        mount1 == mount,
        gaps1[3] + line_end(fstype1, gaps1[4], options1) == gaps[3] + line_end(
            fstype,
            gaps[4],
            options,
        ),
{
    assert(is_gap(gaps[0]) && is_gap(gaps[1]) && is_gap(gaps[2]) && is_gap(gaps[3]));
    assert(is_gap(gaps1[0]) && is_gap(gaps1[1]) && is_gap(gaps1[2]) && is_gap(gaps1[3]));
    let end = line_end(fstype, gaps[4], options);
    let rest = line_rest(mount, gaps[2], gaps[3], end);
    let on = "on"@ + (gaps[1] + rest);
    let end1 = line_end(fstype1, gaps1[4], options1);
    let rest1 = line_rest(mount1, gaps1[2], gaps1[3], end1);
    let on1 = "on"@ + (gaps1[1] + rest1);
    lemma_mount_line_parts(blkdev, mount, fstype, options, gaps);
    lemma_mount_line_parts(blkdev1, mount1, fstype1, options1, gaps1);
    reveal_strlit("on");
    reveal_strlit("type");
    assert((gaps[0] + on)[0] == gaps[0][0] && (gaps1[0] + on1)[0] == gaps1[0][0]);
    lemma_solid_unique(blkdev, gaps[0] + on, blkdev1, gaps1[0] + on1);
    assert(on[0] == 'o' && on1[0] == 'o');
    lemma_gap_unique(gaps[0], on, gaps1[0], on1);
    lemma_cancel("on"@, gaps[1] + rest, "on"@, gaps1[1] + rest1);
    assert(rest[0] == mount[0] && rest1[0] == mount1[0]);
    lemma_gap_unique(gaps[1], rest, gaps1[1], rest1);
    let ty = "type"@ + (gaps[3] + end);
    let ty1 = "type"@ + (gaps1[3] + end1);
    assert((gaps[2] + ty)[0] == gaps[2][0] && (gaps1[2] + ty1)[0] == gaps1[2][0]);
    lemma_solid_unique(mount, gaps[2] + ty, mount1, gaps1[2] + ty1);
    assert(ty[0] == 't' && ty1[0] == 't');
    lemma_gap_unique(gaps[2], ty, gaps1[2], ty1);
    lemma_cancel("type"@, gaps[3] + end, "type"@, gaps1[3] + end1);
}

/// The fields of a clear parting are what is captured.
proof fn lemma_clear_parting_is_read(
    line: Seq<char>,
    blkdev: Seq<char>,
    mount: Seq<char>,
    fstype: Seq<char>,
    options: Seq<char>,
    gaps: Seq<Seq<char>>,
    groups: Groups,
)
    requires
        is_clear_parting(line, blkdev, mount, fstype, options, gaps),
        mount_line_match(line, groups),
    ensures
        mount_fields(groups) == Some(
            MountFields { blkdev, mount, fstype, options: options_of(split(options, ',')) },
        ),
{
    let g = groups->0;
    let gaps1 = choose|gaps1: Seq<Seq<char>>|
        {
            &&& #[trigger] is_mount_parting(line, g[1]->0, g[2]->0, g[3]->0, g[4]->0, gaps1)
            &&& is_preferred_parting(line, gaps1[3].len(), g[3]->0.len())
        };
    lemma_line_start_unique(
        line,
        blkdev,
        mount,
        fstype,
        options,
        gaps,
        g[1]->0,
        g[2]->0,
        g[3]->0,
        g[4]->0,
        gaps1,
    );
    assert(is_gap(gaps[3]) && is_gap(gaps[4]) && is_gap(gaps1[3]) && is_gap(gaps1[4]));
    let end = line_end(fstype, gaps[4], options);
    assert(end[0] == fstype[0]);
    lemma_gap_unique(gaps[3], end, gaps1[3], line_end(g[3]->0, gaps1[4], g[4]->0));
    lemma_line_end_unique(fstype, gaps[4], options, g[3]->0, gaps1[4], g[4]->0);
}

/// A line is read in one way only: what is captured of it fixes the mounted file system.
pub proof fn law_mount_line_is_read_one_way(line: Seq<char>, groups: Groups, other: Groups)
    requires
        mount_line_match(line, groups),
        mount_line_match(line, other),
    ensures
        mount_fields(groups) == mount_fields(other),
{
    if groups is Some && other is Some {
        let g = groups->0;
        let h = other->0;
        let gaps = choose|gaps: Seq<Seq<char>>|
            {
                &&& #[trigger] is_mount_parting(line, g[1]->0, g[2]->0, g[3]->0, g[4]->0, gaps)
                &&& is_preferred_parting(line, gaps[3].len(), g[3]->0.len())
            };
        let gaps1 = choose|gaps1: Seq<Seq<char>>|
            {
                &&& #[trigger] is_mount_parting(line, h[1]->0, h[2]->0, h[3]->0, h[4]->0, gaps1)
                &&& is_preferred_parting(line, gaps1[3].len(), h[3]->0.len())
            };
        lemma_line_start_unique(
            line,
            g[1]->0,
            g[2]->0,
            g[3]->0,
            g[4]->0,
            gaps,
            h[1]->0,
            h[2]->0,
            h[3]->0,
            h[4]->0,
            gaps1,
        );
        let tail = "("@ + (g[4]->0 + ")"@);
        let tail1 = "("@ + (h[4]->0 + ")"@);
        lemma_cancel(
            gaps[3],
            line_end(g[3]->0, gaps[4], g[4]->0),
            gaps1[3],
            line_end(h[3]->0, gaps1[4], h[4]->0),
        );
        lemma_cancel(g[3]->0, gaps[4] + tail, h[3]->0, gaps1[4] + tail1);
        reveal_strlit("(");
        assert(is_gap(gaps[4]) && is_gap(gaps1[4]));
        assert(tail[0] == '(' && tail1[0] == '(');
        lemma_gap_unique(gaps[4], tail, gaps1[4], tail1);
        lemma_cancel("("@, g[4]->0 + ")"@, "("@, h[4]->0 + ")"@);
        lemma_cancel(g[4]->0, ")"@, h[4]->0, ")"@);
    }
}

/// Whether no two of the texts set the same option.
pub open spec fn names_differ(texts: Seq<Seq<char>>) -> bool {
    forall|i: int, j: int|
        0 <= i < j < texts.len() ==> option_of(#[trigger] texts[i]).0 != option_of(
            #[trigger] texts[j],
        ).0
}

/// An option is set where one of the texts sets it, to what one of them says.
proof fn lemma_options_come_from_texts(texts: Seq<Seq<char>>, name: Seq<char>)
    ensures
        options_of(texts).contains_key(name) ==> exists|i: int|
            0 <= i < texts.len() && option_of(#[trigger] texts[i]) == (
                name,
                options_of(texts)[name],
            ),
        forall|i: int|
            0 <= i < texts.len() && option_of(#[trigger] texts[i]).0 == name
                ==> options_of(texts).contains_key(name),
    decreases texts.len(),
{
    if texts.len() > 0 {
        let before = texts.drop_last();
        lemma_options_come_from_texts(before, name);
        if option_of(texts.last()).0 == name {
            assert(option_of(texts[texts.len() - 1]) == (name, options_of(texts)[name]));
        } else if options_of(before).contains_key(name) {
            let i = choose|i: int|
                0 <= i < before.len() && option_of(#[trigger] before[i]) == (
                    name,
                    options_of(before)[name],
                );
            assert(texts[i] == before[i]);
        }
        assert forall|i: int|
            0 <= i < texts.len() && option_of(#[trigger] texts[i]).0
                == name implies options_of(texts).contains_key(name) by {
            if i < before.len() {
                assert(before[i] == texts[i]);
            }
        }
    }
}

/// The order of mount options makes no difference where each option is set once.
pub proof fn law_option_order_is_irrelevant(texts: Seq<Seq<char>>, others: Seq<Seq<char>>)
    requires
        names_differ(texts),
        texts.to_multiset() == others.to_multiset(),
    ensures
        options_of(texts) == options_of(others),
{
    let a = options_of(texts);
    let b = options_of(others);
    texts.to_multiset_ensures();
    others.to_multiset_ensures();
    assert forall|name: Seq<char>|
        #![trigger a.dom().contains(name)]
        #![trigger b.dom().contains(name)]
        a.dom().contains(name) == b.dom().contains(name) && (a.dom().contains(name) ==> a[name]
            == b[name]) by {
        lemma_options_come_from_texts(texts, name);
        lemma_options_come_from_texts(others, name);
        if a.contains_key(name) {
            let i = choose|i: int|
                0 <= i < texts.len() && option_of(#[trigger] texts[i]) == (name, a[name]);
            assert(texts.to_multiset().count(texts[i]) > 0);
            assert(others.contains(texts[i]));
            let k = choose|k: int| 0 <= k < others.len() && others[k] == texts[i];
            assert(option_of(others[k]).0 == name);
        }
        if b.contains_key(name) {
            let j = choose|j: int|
                0 <= j < others.len() && option_of(#[trigger] others[j]) == (name, b[name]);
            assert(others.to_multiset().count(others[j]) > 0);
            assert(texts.contains(others[j]));
            let k = choose|k: int| 0 <= k < texts.len() && texts[k] == others[j];
            assert(option_of(texts[k]).0 == name);
            let i = choose|i: int|
                0 <= i < texts.len() && option_of(#[trigger] texts[i]) == (name, a[name]);
            assert(i == k);
        }
    }
    assert(a =~= b);
}

/// Two lines that report the same device, mount point and type and the same options in
/// any order, each option once, describe the same mounted file system, however much white
/// space stands before the type.
pub proof fn law_layout_is_irrelevant(
    blkdev: Seq<char>,
    mount: Seq<char>,
    fstype: Seq<char>,
    line: Seq<char>,
    options: Seq<char>,
    gaps: Seq<Seq<char>>,
    groups: Groups,
    line1: Seq<char>,
    options1: Seq<char>,
    gaps1: Seq<Seq<char>>,
    groups1: Groups,
)
    requires
        is_clear_parting(line, blkdev, mount, fstype, options, gaps),
        is_clear_parting(line1, blkdev, mount, fstype, options1, gaps1),
        mount_line_match(line, groups),
        mount_line_match(line1, groups1),
        names_differ(split(options, ',')),
        split(options, ',').to_multiset() == split(options1, ',').to_multiset(),
    ensures
        mount_fields(groups) is Some,
        mount_fields(groups) == mount_fields(groups1),
{
    lemma_clear_parting_is_read(line, blkdev, mount, fstype, options, gaps, groups);
    lemma_clear_parting_is_read(line1, blkdev, mount, fstype, options1, gaps1, groups1);
    law_option_order_is_irrelevant(split(options, ','), split(options1, ','));
}

/// Whether the text of an option sets the option of the given name to a value, or to none.
pub open spec fn sets(text: Seq<char>, name: Seq<char>, value: Option<Seq<char>>) -> bool {
    match value {
        Some(v) => text == name + seq!['='] + v,
        None => text == name,
    }
}

proof fn lemma_sets(text: Seq<char>, name: Seq<char>, value: Option<Seq<char>>)
    requires
        !name.contains('='),
    ensures
        sets(text, name, value) <==> option_of(text) == (name, value),
{
    law_split_first_parts(text, '=');
    if sets(text, name, value) {
        if let Some(v) = value {
            lemma_split_first_at(name, '=', v);
        } else if let Some((before, after)) = split_first(text, '=') {
            assert(text[before.len() as int] == '=');
        }
    }
}

/// The last text that sets an option decides its value.
pub proof fn law_last_setting_counts(
    texts: Seq<Seq<char>>,
    at: int,
    name: Seq<char>,
    value: Option<Seq<char>>,
)
    requires
        !name.contains('='),
        0 <= at < texts.len(),
        sets(texts[at], name, value),
        forall|j: int, v: Option<Seq<char>>|
            at < j < texts.len() ==> !(#[trigger] sets(texts[j], name, v)),
    ensures
        options_of(texts).contains_key(name),
        options_of(texts)[name] == value,
    decreases texts.len(),
{
    let last = texts.len() - 1;
    lemma_sets(texts[at], name, value);
    if at < last {
        let (other, v) = option_of(texts[last]);
        if other == name {
            lemma_sets(texts[last], name, v);
            assert(sets(texts[last], name, v));
        }
        let before = texts.drop_last();
        assert forall|j: int, v: Option<Seq<char>>| at < j < before.len() implies !(#[trigger] sets(
            before[j],
            name,
            v,
        )) by {
            assert(!sets(texts[j], name, v));
        }
        law_last_setting_counts(before, at, name, value);
    }
}

/// An option that no text sets is not set.
pub proof fn law_nothing_else_is_set(texts: Seq<Seq<char>>, name: Seq<char>)
    requires
        !name.contains('='),
        forall|j: int, v: Option<Seq<char>>|
            0 <= j < texts.len() ==> !(#[trigger] sets(texts[j], name, v)),
    ensures
        !options_of(texts).contains_key(name),
{
    lemma_options_come_from_texts(texts, name);
    if options_of(texts).contains_key(name) {
        let i = choose|i: int|
            0 <= i < texts.len() && option_of(#[trigger] texts[i]) == (
                name,
                options_of(texts)[name],
            );
        lemma_sets(texts[i], name, options_of(texts)[name]);
        assert(sets(texts[i], name, options_of(texts)[name]));
    }
}

proof fn lemma_subvol_is_a_name()
    ensures
        !"subvol"@.contains('='),
{
    reveal_strlit("subvol");
}

/// The subvolume of a mount is what the last option says that sets `subvol`, whatever other
/// options stand beside it, and the other fields are those of the line.
pub proof fn law_subvol_is_read(
    line: Seq<char>,
    blkdev: Seq<char>,
    mount: Seq<char>,
    fstype: Seq<char>,
    options: Seq<char>,
    gaps: Seq<Seq<char>>,
    groups: Groups,
    at: int,
    sv: Option<Seq<char>>,
)
    requires
        is_clear_parting(line, blkdev, mount, fstype, options, gaps),
        mount_line_match(line, groups),
        0 <= at < split(options, ',').len(),
        sets(split(options, ',')[at], "subvol"@, sv),
        forall|j: int, v: Option<Seq<char>>|
            at < j < split(options, ',').len() ==> !(#[trigger] sets(
                split(options, ',')[j],
                "subvol"@,
                v,
            )),
    ensures
        mount_fields(groups) matches Some(m) && m.blkdev == blkdev && m.mount == mount && m.fstype
            == fstype && subvol_of(m.options) == sv,
{
    lemma_clear_parting_is_read(line, blkdev, mount, fstype, options, gaps, groups);
    lemma_subvol_is_a_name();
    law_last_setting_counts(split(options, ','), at, "subvol"@, sv);
}

/// A mount has no subvolume where no option sets `subvol`.
pub proof fn law_no_subvol_is_read(
    line: Seq<char>,
    blkdev: Seq<char>,
    mount: Seq<char>,
    fstype: Seq<char>,
    options: Seq<char>,
    gaps: Seq<Seq<char>>,
    groups: Groups,
)
    requires
        is_clear_parting(line, blkdev, mount, fstype, options, gaps),
        mount_line_match(line, groups),
        forall|j: int, v: Option<Seq<char>>|
            0 <= j < split(options, ',').len() ==> !(#[trigger] sets(
                split(options, ',')[j],
                "subvol"@,
                v,
            )),
    ensures
        mount_fields(groups) matches Some(m) && m.blkdev == blkdev && m.mount == mount && m.fstype
            == fstype && subvol_of(m.options) is None,
{
    lemma_clear_parting_is_read(line, blkdev, mount, fstype, options, gaps, groups);
    lemma_subvol_is_a_name();
    law_nothing_else_is_set(split(options, ','), "subvol"@);
}

/// Whatever the options of a mount are, its subvolume is the value of `subvol` among them,
/// and it has none only where there is no such value.
pub proof fn law_subvol_is_the_option(options: Map<Seq<char>, Option<Seq<char>>>, sv: Seq<char>)
    ensures
        subvol_of(options) == Some(sv) <==> options.contains_key("subvol"@) && options["subvol"@]
            == Some(sv),
{
}

/// Every line that can be parted is read by its preferred parting, and no other line is.
pub proof fn law_fields_are_those_of_the_line(line: Seq<char>, groups: Groups)
    requires
        mount_line_match(line, groups),
    ensures
        match mount_fields(groups) {
            Some(m) => exists|options: Seq<char>, gaps: Seq<Seq<char>>|
                {
                    &&& #[trigger] is_mount_parting(
                        line,
                        m.blkdev,
                        m.mount,
                        m.fstype,
                        options,
                        gaps,
                    )
                    &&& is_preferred_parting(line, gaps[3].len(), m.fstype.len())
                    &&& m.options == options_of(split(options, ','))
                },
            None => forall|
                blkdev: Seq<char>,
                mount: Seq<char>,
                fstype: Seq<char>,
                options: Seq<char>,
                gaps: Seq<Seq<char>>,
            |
                !is_mount_parting(line, blkdev, mount, fstype, options, gaps),
        },
{
    if let Some(g) = groups {
        let gaps = choose|gaps: Seq<Seq<char>>|
            {
                &&& #[trigger] is_mount_parting(line, g[1]->0, g[2]->0, g[3]->0, g[4]->0, gaps)
                &&& is_preferred_parting(line, gaps[3].len(), g[3]->0.len())
            };
        let m = mount_fields(groups)->0;
        assert(is_mount_parting(line, m.blkdev, m.mount, m.fstype, g[4]->0, gaps));
    }
}

} // verus!
