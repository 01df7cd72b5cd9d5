//! Putting a subvolume on a mount point: the commands for it and their outcome.

use crate::message::{Message, Stream};
use crate::text::joined;
use vstd::prelude::*;

verus! {

/// A command: the program and its arguments.
pub type Argv = Seq<Seq<char>>;

/// What is under way on a mount point. The text type `T` is `String` in programs
/// and `Seq<char>` in specifications.
#[derive(Debug, PartialEq, Eq)]
pub enum MountJob<T = String> {
    /// What was mounted is being unmounted.
    Unmounting { mount: T, blkdev: T, sv: T },
    /// The subvolume is being mounted.
    Mounting { mount: T },
    /// No command is left.
    Done {
        /// Whether no command failed.
        mounted: bool,
    },
}

impl DeepView for MountJob {
    type V = MountJob<Seq<char>>;

    open spec fn deep_view(&self) -> MountJob<Seq<char>> {
        match *self {
            MountJob::Unmounting { mount, blkdev, sv } => MountJob::Unmounting {
                mount: mount@,
                blkdev: blkdev@,
                sv: sv@,
            },
            MountJob::Mounting { mount } => MountJob::Mounting { mount: mount@ },
            MountJob::Done { mounted } => MountJob::Done { mounted },
        }
    }
}

pub open spec fn umount_command(mount: Seq<char>) -> Argv {
    seq!["umount"@, mount]
}

/// A subvolume is mounted read-only.
pub open spec fn mount_command(mount: Seq<char>, blkdev: Seq<char>, sv: Seq<char>) -> Argv {
    seq!["mount"@, "-o"@, "ro,subvol="@ + sv, blkdev, mount]
}

/// The line in which a command is shown.
pub open spec fn echo(argv: Argv) -> Message<Seq<char>> {
    Message { stream: Stream::Stderr, text: "> "@ + joined(argv, " "@) }
}

/// What is shown before anything is done.
pub open spec fn echoes(
    mount: Seq<char>,
    blkdev: Seq<char>,
    sv: Seq<char>,
    remount: bool,
    verbose: bool,
) -> Seq<Message<Seq<char>>> {
    if !verbose {
        Seq::empty()
    } else if remount {
        seq![echo(umount_command(mount)), echo(mount_command(mount, blkdev, sv))]
    } else {
        seq![echo(mount_command(mount, blkdev, sv))]
    }
}

/// How it begins: nothing is done unless commands are to be run, and a mount point
/// in use is unmounted first.
pub open spec fn job_begun(
    mount: Seq<char>,
    blkdev: Seq<char>,
    sv: Seq<char>,
    remount: bool,
    run_mode: bool,
) -> (MountJob<Seq<char>>, Option<Argv>) {
    if !run_mode {
        (MountJob::Done { mounted: true }, None)
    } else if remount {
        (MountJob::Unmounting { mount, blkdev, sv }, Some(umount_command(mount)))
    } else {
        (MountJob::Mounting { mount }, Some(mount_command(mount, blkdev, sv)))
    }
}

/// How it goes on when a command has ended: nothing is mounted over what could not
/// be unmounted.
pub open spec fn job_continued(job: MountJob<Seq<char>>, success: bool) -> (
    MountJob<Seq<char>>,
    Option<Argv>,
) {
    match job {
        MountJob::Unmounting { mount, blkdev, sv } => if success {
            (MountJob::Mounting { mount }, Some(mount_command(mount, blkdev, sv)))
        } else {
            (MountJob::Done { mounted: false }, None)
        },
        MountJob::Mounting { .. } => (MountJob::Done { mounted: success }, None),
        MountJob::Done { mounted } => (MountJob::Done { mounted }, None),
    }
}

/// What is told when a command has ended.
pub open spec fn job_messages(job: MountJob<Seq<char>>, success: bool) -> Seq<Message<Seq<char>>> {
    match job {
        MountJob::Unmounting { mount, .. } if !success => seq![
            Message { stream: Stream::Stderr, text: "Couldn't unmount '"@ + mount + "'"@ },
        ],
        MountJob::Mounting { mount } if !success => seq![
            Message { stream: Stream::Stderr, text: "Couldn't mount '"@ + mount + "'!"@ },
        ],
        _ => Seq::empty(),
    }
}

/// The command that unmounts.
pub fn umount_argv(mount: &str) -> (argv: Vec<String>)
    ensures
        argv.deep_view() == umount_command(mount@),
{
    let argv = vec!["umount".to_owned(), mount.to_owned()];
    assert(argv.deep_view() =~= umount_command(mount@));
    argv
}

/// The command that mounts a subvolume read-only.
pub fn mount_argv(mount: &str, blkdev: &str, sv: &str) -> (argv: Vec<String>)
    ensures
        argv.deep_view() == mount_command(mount@, blkdev@, sv@),
{
    let mut options = "ro,subvol=".to_owned();
    options.append(sv);
    let argv = vec![
        "mount".to_owned(),
        "-o".to_owned(),
        options,
        blkdev.to_owned(),
        mount.to_owned(),
    ];
    assert(argv.deep_view() =~= mount_command(mount@, blkdev@, sv@));
    argv
}

fn echo_message(argv: &Vec<String>) -> (message: Message)
    ensures
        message.deep_view() == echo(argv.deep_view()),
{
    let ghost words = argv.deep_view();
    let mut text = "> ".to_owned();
    let mut i: usize = 0;
    assert(text@ =~= "> "@ + joined(words.take(0), " "@)) by {
        assert(words.take(0) =~= Seq::empty());
    }
    while i < argv.len()
        invariant
            i <= argv.len(),
            words == argv.deep_view(),
            text@ == "> "@ + joined(words.take(i as int), " "@),
        decreases argv.len() - i,
    {
        assert(words[i as int] == argv@[i as int]@);
        assert(words.take(i + 1).drop_last() =~= words.take(i as int));
        let ghost before = text@;
        if i > 0 {
            text.append(" ");
        }
        text.append(argv[i].as_str());
        proof {
            let word = words[i as int];
            if i > 0 {
                assert(before + " "@ + word =~= "> "@ + (joined(words.take(i as int), " "@) + " "@
                    + word));
            } else {
                assert(words.take(0) =~= Seq::empty());
                assert(before + word =~= "> "@ + word);
                assert(words.take(1)[0] == word);
            }
        }
        i += 1;
    }
    assert(words.take(i as int) =~= words);
    Message { stream: Stream::Stderr, text }
}

/// Where a mount point stands, what is to be run next, and what is to be told first.
#[derive(Debug, PartialEq, Eq)]
pub struct MountStep {
    pub job: MountJob,
    pub command: Option<Vec<String>>,
    pub messages: Vec<Message>,
}

/// Begins to put the subvolume `sv` of the device `blkdev` on a mount point.
pub fn mount_subvol(
    mount: &str,
    blkdev: &str,
    sv: &str,
    remount: bool,
    verbose: bool,
    run_mode: bool,
) -> (step: MountStep)
    ensures
        (step.job.deep_view(), step.command.deep_view()) == job_begun(
            mount@,
            blkdev@,
            sv@,
            remount,
            run_mode,
        ),
        step.messages.deep_view() == echoes(mount@, blkdev@, sv@, remount, verbose),
{
    let umount_cmd = umount_argv(mount);
    let mount_cmd = mount_argv(mount, blkdev, sv);
    let mut messages: Vec<Message> = Vec::new();
    if verbose {
        if remount {
            messages.push(echo_message(&umount_cmd));
        }
        messages.push(echo_message(&mount_cmd));
    }
    assert(messages.deep_view() =~= echoes(mount@, blkdev@, sv@, remount, verbose));
    if !run_mode {
        return MountStep { job: MountJob::Done { mounted: true }, command: None, messages };
    }
    if remount {
        let job = MountJob::Unmounting {
            mount: mount.to_owned(),
            blkdev: blkdev.to_owned(),
            sv: sv.to_owned(),
        };
        MountStep { job, command: Some(umount_cmd), messages }
    } else {
        let job = MountJob::Mounting { mount: mount.to_owned() };
        MountStep { job, command: Some(mount_cmd), messages }
    }
}

impl MountJob {
    /// Goes on when the command that was to be run has ended.
    pub fn exited(self, success: bool) -> (step: MountStep)
        ensures
            (step.job.deep_view(), step.command.deep_view()) == job_continued(
                self.deep_view(),
                success,
            ),
            step.messages.deep_view() == job_messages(self.deep_view(), success),
    {
        let mut messages: Vec<Message> = Vec::new();
        let ghost told = job_messages(self.deep_view(), success);
        match self {
            MountJob::Unmounting { mount, blkdev, sv } => {
                if success {
                    let command = mount_argv(mount.as_str(), blkdev.as_str(), sv.as_str());
                    assert(messages.deep_view() =~= told);
                    MountStep { job: MountJob::Mounting { mount }, command: Some(command), messages }
                } else {
                    let mut text = "Couldn't unmount '".to_owned();
                    text.append(mount.as_str());
                    text.append("'");
                    messages.push(Message { stream: Stream::Stderr, text });
                    assert(messages.deep_view() =~= told);
                    MountStep { job: MountJob::Done { mounted: false }, command: None, messages }
                }
            },
            MountJob::Mounting { mount } => {
                if !success {
                    let mut text = "Couldn't mount '".to_owned();
                    text.append(mount.as_str());
                    text.append("'!");
                    messages.push(Message { stream: Stream::Stderr, text });
                }
                assert(messages.deep_view() =~= told);
                MountStep { job: MountJob::Done { mounted: success }, command: None, messages }
            },
            MountJob::Done { mounted } => {
                assert(messages.deep_view() =~= told);
                MountStep { job: MountJob::Done { mounted }, command: None, messages }
            },
        }
    }
}

/// A mount point is unmounted by its name, and a subvolume is mounted read-only from its
/// device on the mount point.
pub proof fn law_commands_name_what_they_change(mount: Seq<char>, blkdev: Seq<char>, sv: Seq<char>)
    ensures
        umount_command(mount) == seq!["umount"@, mount],
        mount_command(mount, blkdev, sv) == seq!["mount"@, "-o"@, "ro,subvol="@ + sv, blkdev, mount],
{
}

/// Just the commands that belong to a mount point are shown, each as it would be typed, and
/// only where details are to be told.
pub proof fn law_commands_are_shown(
    mount: Seq<char>,
    blkdev: Seq<char>,
    sv: Seq<char>,
    remount: bool,
)
    ensures
        ({
            let umount = Message { stream: Stream::Stderr, text: "> umount "@ + mount };
            let mounting = Message {
                stream: Stream::Stderr,
                text: "> mount -o ro,subvol="@ + sv + " "@ + blkdev + " "@ + mount,
            };
            &&& echoes(mount, blkdev, sv, remount, false).len() == 0
            &&& echoes(mount, blkdev, sv, false, true) == seq![mounting]
            &&& echoes(mount, blkdev, sv, true, true) == seq![umount, mounting]
        }),
{
    let a = umount_command(mount);
    let b = mount_command(mount, blkdev, sv);
    reveal_with_fuel(joined, 5);
    reveal_strlit("> ");
    reveal_strlit(" ");
    reveal_strlit("umount");
    reveal_strlit("> umount ");
    reveal_strlit("mount");
    reveal_strlit("-o");
    reveal_strlit("ro,subvol=");
    reveal_strlit("> mount -o ro,subvol=");
    assert(a.drop_last() =~= seq!["umount"@]);
    assert(joined(a, " "@) == "umount"@ + " "@ + mount);
    assert(echo(a).text =~= "> umount "@ + mount);
    assert(b.drop_last() =~= seq!["mount"@, "-o"@, "ro,subvol="@ + sv, blkdev]);
    assert(b.drop_last().drop_last() =~= seq!["mount"@, "-o"@, "ro,subvol="@ + sv]);
    assert(b.drop_last().drop_last().drop_last() =~= seq!["mount"@, "-o"@]);
    assert(b.drop_last().drop_last().drop_last().drop_last() =~= seq!["mount"@]);
    assert(joined(b, " "@) == "mount"@ + " "@ + "-o"@ + " "@ + ("ro,subvol="@ + sv) + " "@ + blkdev
        + " "@ + mount);
    assert(echo(b).text =~= "> mount -o ro,subvol="@ + sv + " "@ + blkdev + " "@ + mount);
}

/// A mount point counts as mounted just where no command for it failed; a run without commands
/// leaves it at that.
pub proof fn law_mounted_is_that_no_command_failed(
    mount: Seq<char>,
    blkdev: Seq<char>,
    sv: Seq<char>,
    remount: bool,
    success: bool,
)
    ensures
        job_begun(mount, blkdev, sv, remount, false) == (
            MountJob::<Seq<char>>::Done { mounted: true },
            None::<Argv>,
        ),
        job_continued(MountJob::Unmounting { mount, blkdev, sv }, false) == (
            MountJob::<Seq<char>>::Done { mounted: false },
            None::<Argv>,
        ),
        job_continued(MountJob::Mounting { mount }, success) == (
            MountJob::<Seq<char>>::Done { mounted: success },
            None::<Argv>,
        ),
        job_continued(MountJob::Done { mounted: remount }, success) == (
            MountJob::<Seq<char>>::Done { mounted: remount },
            None::<Argv>,
        ),
        job_messages(MountJob::Done { mounted: remount }, success).len() == 0,
{
}

} // verus!
