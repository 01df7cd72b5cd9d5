use btram::config::ConfigEntry;
use btram::error::BtramError;
use btram::latest::{find_latest, LatestSearch};
use btram::message::{Message, Stream};
use btram::process::{process_inspection, process_mount, process_search, Course, Roots};
use btram::remount::{mount_argv, mount_subvol, umount_argv, MountJob};
use btram::session::{Action, Event, Session};
use btram::subvol::SubvolInfo;
use btram::table::Table;

fn text(s: &str) -> String {
    s.to_string()
}

fn entry(root: &str, dir: &str, prefix: &str) -> ConfigEntry {
    ConfigEntry { root: text(root), dir: text(dir), prefix: text(prefix), done: false }
}

fn config_of(entries: &[(&str, &str, &str, &str)]) -> Table<ConfigEntry> {
    let mut config = Table::new();
    for (mount, root, dir, prefix) in entries {
        config.insert(text(mount), entry(root, dir, prefix));
    }
    config
}

/// What the outside of a session looks like.
struct World {
    mounts: Vec<&'static str>,
    /// Glob patterns with the file names that they match.
    listings: Vec<(&'static str, Vec<&'static str>)>,
    /// Paths of subvolumes that are not clean, with their flags.
    unclean: Vec<(&'static str, &'static str)>,
    /// Commands that fail.
    failing: Vec<&'static str>,
}

fn description(path: &str, flags: &str) -> Vec<u8> {
    // Every root is mounted at a directory right below the top.
    let sv = path.splitn(3, '/').nth(2).unwrap();
    let shown = format!(
        "{}\n\tReceived UUID: \t-\n\tGeneration: \t5\n\tGen at creation: \t5\n\tFlags: \t{}\n",
        sv, flags
    );
    shown.into_bytes()
}

/// Runs a session to its end and returns what was told, the commands that were run, and
/// how it ended.
fn run(world: &World, session: Session) -> (Vec<String>, Vec<String>, Action) {
    let mut told: Vec<String> = Vec::new();
    let mut commands: Vec<String> = Vec::new();
    let mut session = session;
    let mut next_line = 0;
    let mut names: Vec<&str> = Vec::new();
    let mut action: Action = Action::NextLine;
    loop {
        let event = match action {
            Action::NextLine => {
                next_line += 1;
                match world.mounts.get(next_line - 1) {
                    Some(line) => Event::Line(text(line)),
                    None => Event::EndOfLines,
                }
            }
            Action::Show(argv) => {
                assert_eq!(&argv[..3], ["btrfs", "subvolume", "show"]);
                let path = argv[3].as_str();
                let flags = world.unclean.iter().find(|u| u.0 == path).map_or("readonly", |u| u.1);
                let success = !world.failing.contains(&path);
                Event::Shown { success, stdout: description(path, flags) }
            }
            Action::Glob(pattern) => {
                let listing = world.listings.iter().find(|l| l.0 == pattern);
                names = listing.map_or(Vec::new(), |l| l.1.clone());
                names.reverse();
                match names.pop() {
                    Some(name) => Event::Entry(text(name)),
                    None => Event::EndOfEntries,
                }
            }
            Action::NextEntry => match names.pop() {
                Some(name) => Event::Entry(text(name)),
                None => Event::EndOfEntries,
            },
            Action::Run(argv) => {
                let command = argv.join(" ");
                let success = !world.failing.contains(&command.as_str());
                commands.push(command);
                Event::Exited { success }
            }
            end => return (told, commands, end),
        };
        assert!(session.expects(&event));
        let (next, reply) = session.step(event);
        session = next;
        for message in reply.messages {
            let mark = match message.stream {
                Stream::Stdout => "out",
                Stream::Stderr => "err",
            };
            told.push(format!("{} {}", mark, message.text));
        }
        action = reply.action;
    }
}

const ROOT: &str = "/dev/sda on /root type btrfs (rw,subvolid=5,subvol=/)";
const OLD: &str = "/dev/sda on /home type btrfs (ro,subvol=/snaps/home.1)";

fn world(mounts: Vec<&'static str>) -> World {
    World {
        mounts,
        listings: vec![("/root/snaps/home.*", vec!["home.1", "home.3", "home.2", "home.old"])],
        unclean: Vec::new(),
        failing: Vec::new(),
    }
}

fn home() -> Table<ConfigEntry> {
    config_of(&[("/home", "/root", "snaps", "home")])
}

#[test]
fn an_old_snapshot_is_replaced_by_the_latest() {
    let (told, commands, end) = run(&world(vec![ROOT, OLD]), Session::new(home(), false, true));
    assert_eq!(told, ["out '/home': '/root/snaps/home.3' replaces '/root/snaps/home.1'"]);
    assert_eq!(commands, ["umount /home", "mount -o ro,subvol=snaps/home.3 /dev/sda /home"]);
    assert_eq!(end, Action::Finish);
}

#[test]
fn a_dry_run_runs_no_command() {
    let (told, commands, end) = run(&world(vec![ROOT, OLD]), Session::new(home(), true, false));
    assert_eq!(
        told,
        [
            "out Mount [candidate]: '/home' -> '/root/snaps/home.1'",
            "out '/home': '/root/snaps/home.3' replaces '/root/snaps/home.1'",
            "err > umount /home",
            "err > mount -o ro,subvol=snaps/home.3 /dev/sda /home",
        ]
    );
    assert!(commands.is_empty());
    assert_eq!(end, Action::Finish);
}

#[test]
fn the_latest_snapshot_is_left_alone() {
    let line = "/dev/sda on /home type btrfs (ro,subvol=/snaps/home.3)";
    let (told, commands, end) = run(&world(vec![ROOT, line]), Session::new(home(), false, true));
    assert!(told.is_empty());
    assert!(commands.is_empty());
    assert_eq!(end, Action::Finish);
}

#[test]
fn a_snapshot_is_never_replaced_by_an_earlier_one() {
    let line = "/dev/sda on /home type btrfs (ro,subvol=/snaps/home.2)";
    let mut world = world(vec![ROOT, line]);
    world.unclean = vec![("/root/snaps/home.3", "-")];
    let (_, commands, _) = run(&world, Session::new(home(), false, true));
    assert!(commands.is_empty());
}

#[test]
fn details_make_no_difference_to_the_commands() {
    let world = world(vec![ROOT, OLD, "/dev/sda on /x type btrfs (ro)"]);
    let (quiet, commands, end) = run(&world, Session::new(home(), false, true));
    let (told, same_commands, same_end) = run(&world, Session::new(home(), true, true));
    assert_eq!(commands, same_commands);
    assert_eq!(end, same_end);
    assert!(told.len() > quiet.len());
}

#[test]
fn snapshots_that_are_not_clean_are_ignored() {
    let mut world = world(vec![ROOT, OLD]);
    world.unclean = vec![("/root/snaps/home.3", "-")];
    let (told, commands, _) = run(&world, Session::new(home(), false, true));
    assert_eq!(
        told,
        [
            "err Warning: ignoring RW subvol 'snaps/home.3'",
            "out '/home': '/root/snaps/home.2' replaces '/root/snaps/home.1'",
        ]
    );
    assert_eq!(commands[1], "mount -o ro,subvol=snaps/home.2 /dev/sda /home");
}

#[test]
fn a_mounted_subvolume_that_is_not_clean_is_skipped() {
    let mut world = world(vec![ROOT, OLD]);
    world.unclean = vec![("/root/snaps/home.1", "-")];
    let (told, commands, _) = run(&world, Session::new(home(), true, true));
    assert_eq!(told, ["out Mount [skipped - RW]: '/home' -> /root/snaps/home.1"]);
    assert!(commands.is_empty());
    let (told, _, _) = run(&world, Session::new(home(), false, true));
    assert!(told.is_empty());
}

#[test]
fn a_failed_unmount_mounts_nothing() {
    let mut world = world(vec![ROOT, OLD]);
    world.failing = vec!["umount /home"];
    let (told, commands, end) = run(&world, Session::new(home(), false, true));
    assert_eq!(told[1], "err Couldn't unmount '/home'");
    assert_eq!(commands, ["umount /home"]);
    assert_eq!(end, Action::Finish);
}

#[test]
fn a_failed_mount_is_told() {
    let mut world = world(vec![ROOT]);
    world.failing = vec!["mount -o ro,subvol=snaps/home.3 /dev/sda /home"];
    let (told, _, end) = run(&world, Session::new(home(), false, true));
    assert_eq!(told, ["out Mount [fresh]: /home", "err Couldn't mount '/home'!"]);
    assert_eq!(end, Action::Finish);
}

#[test]
fn what_is_missing_is_mounted_afresh() {
    let config = config_of(&[
        ("/home", "/root", "snaps", "home"),
        ("/var", "/root", "snaps", "var"),
        ("/srv", "/other", "snaps", "srv"),
    ]);
    let mut world = world(vec![ROOT, "tmpfs on /home type tmpfs (rw)"]);
    world.listings.push(("/other/snaps/srv.*", vec!["srv.7"]));
    let (told, commands, end) = run(&world, Session::new(config, false, true));
    assert_eq!(
        told,
        [
            "out Mount [fresh]: /home",
            "out Mount [fresh]: /var",
            "err Warning: '/var' has no snapshots '/root/snaps/var.*'",
            "out Mount [fresh]: /srv",
            "err Warning: Could not find block device for root mount /other",
        ]
    );
    assert_eq!(commands, ["mount -o ro,subvol=snaps/home.3 /dev/sda /home"]);
    assert_eq!(end, Action::Finish);
}

#[test]
fn a_mount_without_a_subvol_is_replaced_and_still_pending() {
    let line = "/dev/sda on /home type btrfs (ro)";
    let (told, commands, _) = run(&world(vec![ROOT, line]), Session::new(home(), false, true));
    assert_eq!(
        told,
        [
            "err Warning: mount '/home' has no subvol; was it deleted?",
            "out '/home': /root/snaps/home.3 replaces <none>",
            "out Mount [fresh]: /home",
        ]
    );
    assert_eq!(
        commands,
        [
            "umount /home",
            "mount -o ro,subvol=snaps/home.3 /dev/sda /home",
            "mount -o ro,subvol=snaps/home.3 /dev/sda /home",
        ]
    );
}

#[test]
fn a_subvol_mount_needs_its_root() {
    let (told, commands, _) = run(&world(vec![OLD, ROOT]), Session::new(home(), false, true));
    assert_eq!(
        told,
        [
            "err Warning: /dev/sda has a subvol at '/home', but its root subvol is not mounted",
            "out Mount [fresh]: /home",
        ]
    );
    assert_eq!(commands.len(), 1);
}

#[test]
fn a_mount_that_is_not_configured_is_told_and_still_kept_up_to_date() {
    let (told, commands, _) =
        run(&world(vec![ROOT, OLD]), Session::new(Table::new(), false, true));
    assert_eq!(told[0], "err Warning: mount '/home' is not mentioned in config");
    assert_eq!(commands.len(), 2);
}

#[test]
fn subvolumes_outside_a_series_are_left_alone() {
    let line = "/dev/sda on /home type btrfs (ro,subvol=/home)";
    let (told, commands, end) = run(&world(vec![ROOT, line]), Session::new(home(), true, true));
    assert!(told.is_empty());
    assert!(commands.is_empty());
    assert_eq!(end, Action::Finish);
}

#[test]
fn other_file_systems_make_no_difference_to_a_run() {
    let plain = run(&world(vec![ROOT, OLD]), Session::new(home(), true, true));
    let lines = vec![
        "proc on /proc type proc (rw)",
        ROOT,
        "",
        "/dev/sdb on /home type ext4 (rw,subvol=/snaps/home.1)",
        OLD,
        "no mount line",
    ];
    assert_eq!(run(&world(lines), Session::new(home(), true, true)), plain);
}

#[test]
fn errors_end_a_run() {
    let line = "/dev/sda on /home type btrfs (ro,subvol=home)";
    let (_, _, end) = run(&world(vec![ROOT, line]), Session::new(home(), false, true));
    assert_eq!(end, Action::Fail(BtramError::BadSubvolPath(text("home"))));

    let mut failing = world(vec![ROOT, OLD]);
    failing.failing = vec!["/root/snaps/home.2"];
    let (_, commands, end) = run(&failing, Session::new(home(), false, true));
    let message = "btrfs subvolume show failed for /root/snaps/home.2";
    assert_eq!(end, Action::Fail(BtramError::CommandFailed(text(message))));
    assert!(commands.is_empty());

    let config = config_of(&[("/home", "/root", "snaps", "")]);
    let (_, _, end) = run(&world(vec![ROOT]), Session::new(config, false, true));
    assert_eq!(end, Action::Fail(BtramError::BadConfig(text("Empty snapshot prefix"))));
}

#[test]
fn a_prefix_can_be_too_long() {
    let (session, _) = Session::new(home(), false, true).step(Event::EndOfLines);
    let (session, reply) = session.step(Event::Entry(text("home.1")));
    assert!(matches!(reply.action, Action::Show(_)));
    assert!(!session.expects(&Event::EndOfEntries));

    let mut config = Table::new();
    config.insert(text("/home"), entry("/root", "snaps", &"x".repeat(10_000_000)));
    let (session, _) = Session::new(config, false, true).step(Event::EndOfLines);
    let (session, reply) = session.step(Event::Entry(text("home.1")));
    assert_eq!(reply.action, Action::PrefixTooLong);
    assert!(reply.messages.is_empty());
    assert!(!session.expects(&Event::EndOfEntries));
}

fn info(flags: &str) -> SubvolInfo {
    SubvolInfo {
        flags: text(flags),
        received_uuid: text("-"),
        generation: text("1"),
        gen_at_creation: text("1"),
    }
}

fn latest_of(names: &[&str]) -> Option<String> {
    let mut search = find_latest("/r", "d", "p").unwrap();
    for name in names {
        assert_eq!(search.consider(text(name), &info("readonly")), None);
    }
    search.result()
}

#[test]
fn the_order_of_the_listing_is_irrelevant() {
    assert_eq!(latest_of(&["p.1", "p.3", "p.2"]), Some(text("d/p.3")));
    assert_eq!(latest_of(&["p.3", "p.2", "p.1", "p.3"]), Some(text("d/p.3")));
    assert_eq!(latest_of(&["p.9", "p.10"]), Some(text("d/p.9")));
    assert_eq!(latest_of(&[]), None);
}

#[test]
fn a_search_has_a_prefix_and_a_pattern() {
    let bad = BtramError::BadConfig(text("Empty snapshot prefix"));
    assert_eq!(find_latest("/r", "d", ""), Err(bad));
    let mut search: LatestSearch = find_latest("/r", "d", "p").unwrap();
    assert_eq!(search.glob_pattern(), "/r/d/p.*");
    let told = search.consider(text("p.1"), &info("none"));
    let warning = Message { stream: Stream::Stderr, text: text("Warning: ignoring RW subvol 'd/p.1'") };
    assert_eq!(told, Some(warning));
    assert_eq!(search.result(), None);
}

#[test]
fn roots_are_noted_in_both_directions() {
    let mut roots = Roots { bd2root: Table::new(), root2bd: Table::new() };
    let mut config = home();
    let decision = process_mount("/dev/sda", "/root", Some("/"), &mut roots, &mut config);
    assert_eq!(decision.course, Course::Leave);
    assert_eq!(roots.bd2root.get("/dev/sda"), Some(&text("/root")));
    assert_eq!(roots.root2bd.get("/root"), Some(&text("/dev/sda")));
    assert!(!config.get("/home").unwrap().done);
    let decision = process_mount("/dev/sda", "/home", Some("/x"), &mut roots, &mut config);
    assert_eq!(decision.course, Course::Inspect { root_mount: text("/root"), sv: text("x") });
    assert!(config.get("/home").unwrap().done);
    assert_eq!(config.get("/home").unwrap().prefix, "home");
    let decision = process_mount("/dev/sda", "/home", Some(""), &mut roots, &mut config);
    assert_eq!(decision.course, Course::Fail(BtramError::BadSubvolPath(text(""))));
}

#[test]
fn a_clean_snapshot_leads_to_a_search_of_its_series() {
    let shown = description("/r/d/p.1", "readonly");
    let decision = process_inspection("/m", "/r", "d/p.1", false, true, shown);
    let search = find_latest("/r", "d", "p").unwrap();
    assert_eq!(decision.course, Course::Search { search, current: Some(text("d/p.1")) });
    assert!(decision.messages.is_empty());
}

#[test]
fn a_search_decides_what_replaces_a_mount() {
    let mut search = find_latest("/r", "d", "p").unwrap();
    assert_eq!(process_search("/m", &search, &None).course, Course::Leave);
    search.consider(text("p.2"), &info("readonly"));
    let current = Some(text("d/p.2"));
    assert_eq!(process_search("/m", &search, &current).course, Course::Leave);
    let current = Some(text("d/p.1"));
    let replace = Course::Replace { sv: text("d/p.2") };
    assert_eq!(process_search("/m", &search, &current).course, replace);
}

#[test]
fn mounting_takes_one_command_and_remounting_two() {
    let step = mount_subvol("/m", "/dev/sda", "d/p.1", false, false, true);
    assert_eq!(step.command, Some(mount_argv("/m", "/dev/sda", "d/p.1")));
    assert_eq!(step.job.exited(true).job, MountJob::Done { mounted: true });

    let step = mount_subvol("/m", "/dev/sda", "d/p.1", true, false, true);
    assert_eq!(step.command, Some(umount_argv("/m")));
    let step = step.job.exited(true);
    assert_eq!(step.command, Some(mount_argv("/m", "/dev/sda", "d/p.1")));
    let step = step.job.exited(false);
    assert_eq!(step.job, MountJob::Done { mounted: false });
    assert_eq!(step.messages[0].text, "Couldn't mount '/m'!");

    let step = mount_subvol("/m", "/dev/sda", "d/p.1", true, false, false);
    assert_eq!(step.command, None);
    assert_eq!(step.job, MountJob::Done { mounted: true });
    assert_eq!(mount_argv("/m", "b", "s"), ["mount", "-o", "ro,subvol=s", "b", "/m"]);
}
