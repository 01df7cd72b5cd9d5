use btram::config::{parse_config_line, ConfigEntry, ConfigLine, ConfigLoader, LoadAction};
use btram::error::BtramError;
use btram::mounts::{mount_info, parse_mount};
use btram::series::{candidate_from, find_candidate, find_series};
use btram::subvol::{path_of, read_output, sv_impure, sv_info, SubvolInfo};
use btram::table::Table;
use regex::Regex;

fn text(s: &str) -> String {
    s.to_string()
}

#[test]
fn test_parse_mount() {
    let line = "/dev/sda1 on /mnt type btrfs (rw,relatime,space_cache,subvolid=5,subvol=/)";
    let mount_info = parse_mount(line).unwrap();

    assert_eq!(mount_info.blkdev, "/dev/sda1");
    assert_eq!(mount_info.mount, "/mnt");
    assert_eq!(mount_info.fstype, "btrfs");
    assert!(mount_info.options.contains_key("rw"));
    assert!(mount_info.options.contains_key("relatime"));
    assert!(mount_info.options.contains_key("space_cache"));
    assert_eq!(mount_info.options.get("subvolid").unwrap().as_ref().unwrap(), "5");
    assert_eq!(mount_info.options.get("subvol").unwrap().as_ref().unwrap(), "/");
}

#[test]
fn mount_options_without_a_value_have_none() {
    let info = parse_mount("/dev/sda1 on /mnt type btrfs (rw,subvol)").unwrap();
    assert_eq!(info.options.get("rw"), Some(&None));
    assert_eq!(info.options.get("ro"), None);
    assert_eq!(info.subvol(), None);
}

#[test]
fn a_later_mount_option_counts() {
    let info = parse_mount("d on m type btrfs (subvol=/a,subvol=/b=c,,x=)").unwrap();
    assert_eq!(info.subvol(), Some("/b=c"));
    assert_eq!(info.options.get(""), Some(&None));
    assert_eq!(info.options.get("x"), Some(&Some(text(""))));
    assert_eq!(info.options.len(), 3);
}

#[test]
fn mount_lines_allow_any_white_space_between_fields() {
    let info = parse_mount("/dev/sdb\ton  /mnt\u{a0}type   fuse.x  y (rw (z))").unwrap();
    assert_eq!(info.blkdev, "/dev/sdb");
    assert_eq!(info.mount, "/mnt");
    assert_eq!(info.fstype, "fuse.x  y (rw");
    assert!(info.options.contains_key("z)"));
}

#[test]
fn white_space_before_the_type_makes_no_difference() {
    let expected = parse_mount("d on m type btrfs (a=1,b,c=)").unwrap();
    for line in ["d  on\tm \t type  btrfs (c=,b,a=1)", "d on m type \n btrfs\t(b,a=1,c=)"] {
        let info = parse_mount(line).unwrap();
        assert_eq!(info.blkdev, expected.blkdev);
        assert_eq!(info.mount, expected.mount);
        assert_eq!(info.fstype, "btrfs");
        assert_eq!(info.options.len(), 3);
        for key in ["a", "b", "c"] {
            assert_eq!(info.options.get(key), expected.options.get(key));
        }
    }
}

#[test]
fn white_space_before_the_options_goes_to_the_type() {
    assert_eq!(parse_mount("d on m type btrfs  (rw)").unwrap().fstype, "btrfs ");
    assert_eq!(parse_mount("d on m type   (rw)").unwrap().fstype, " ");
    assert!(parse_mount("d on m type  (rw)").is_none());
}

#[test]
fn other_lines_are_no_mount_lines() {
    assert!(parse_mount("").is_none());
    assert!(parse_mount("/dev/sda1 on /mnt type btrfs").is_none());
    assert!(parse_mount("/dev/sda1 on /mnt type btrfs (rw) ").is_none());
    assert!(parse_mount("/dev/sda1 on /my disk type btrfs (rw)").is_none());
    assert!(parse_mount("/dev/sda1 on /mnt type btrfs ()").is_none());
}

#[test]
fn the_groups_of_a_mount_line_describe_a_mount() {
    let groups = Some(vec![
        Some(text("all")),
        Some(text("dev")),
        Some(text("mnt")),
        Some(text("ext4")),
        Some(text("a=1,b")),
    ]);
    let info = mount_info(&groups).unwrap();
    assert_eq!(info.blkdev, "dev");
    assert_eq!(info.options.get("a"), Some(&Some(text("1"))));
    assert!(mount_info(&None).is_none());
    assert!(mount_info(&Some(vec![Some(text("all")), None])).is_none());
}

fn load(lines: &[&str], dirs: &[&str]) -> Result<Table<ConfigEntry>, BtramError> {
    let mut loader = ConfigLoader::new();
    for line in lines {
        assert!(loader.is_idle());
        let (next, mut action) = loader.line(line);
        loader = next;
        loop {
            match action {
                LoadAction::NextLine => break,
                LoadAction::CheckDir(path) => {
                    let (next, asked) = loader.checked(dirs.contains(&path.as_str()));
                    loader = next;
                    action = asked;
                }
                LoadAction::Fail(e) => return Err(e),
            }
        }
    }
    Ok(loader.finish())
}

#[test]
fn test_get_config() {
    let mount_point = "/tmp/dir/mount";
    let root = "/tmp/dir/root";
    let snapshot_dir = "/tmp/dir/root/snapshots";

    let config_line = format!("{}\t{}\t{}\t{}", mount_point, root, "snapshots", "snap");

    let config = load(&[&config_line], &[mount_point, root, snapshot_dir]).unwrap();

    assert_eq!(config.len(), 1);
    let entry = config.get(mount_point).unwrap();
    assert_eq!(entry.root, root);
    assert_eq!(entry.dir, "snapshots");
    assert_eq!(entry.prefix, "snap");
    assert_eq!(entry.done, false);
}

#[test]
fn blank_config_lines_are_skipped() {
    assert_eq!(parse_config_line(""), Ok(None));
    assert_eq!(parse_config_line(" \t\u{3000}"), Ok(None));
    assert_eq!(load(&["", "\t\t"], &[]).unwrap().len(), 0);
}

#[test]
fn runs_of_tabs_separate_columns() {
    let line = ConfigLine {
        mount: text("/m"),
        root: text("/r"),
        dir: text("s d"),
        prefix: text("p"),
    };
    assert_eq!(parse_config_line("\t/m\t\t/r\ts d\t\t\tp\t"), Ok(Some(line)));
}

#[test]
fn the_layout_of_a_config_makes_no_difference() {
    let dirs = ["/m", "/n", "/r", "/r/d"];
    let plain = load(&["/m\t/r\td\tp", "/n\t/r\td\tq"], &dirs).unwrap();
    let other = load(&["", "\t/n\t\t/r\td\tq\t", " ", "/m\t/r\t\t\td\tp"], &dirs).unwrap();
    assert_eq!(other.len(), 2);
    assert_eq!(plain.get("/m"), other.get("/m"));
    assert_eq!(plain.get("/n"), other.get("/n"));
}

#[test]
fn a_config_line_has_four_columns() {
    let bad = BtramError::BadConfig(text("Invalid number of columns"));
    assert_eq!(parse_config_line("/m\t/r\td"), Err(bad));
    let bad = BtramError::BadConfig(text("Invalid number of columns"));
    assert_eq!(parse_config_line("/m\t/r\td\tp\tx"), Err(bad));
    assert_eq!(
        load(&["/m /r d p"], &[]).unwrap_err().message(),
        "Bad config: Invalid number of columns"
    );
}

#[test]
fn config_paths_must_be_directories() {
    let line = ["/m\t/r\td\tp"];
    assert_eq!(
        load(&line, &[]).unwrap_err().message(),
        "Bad config: Mount point '/m' is not a directory"
    );
    assert_eq!(
        load(&line, &["/m"]).unwrap_err().message(),
        "Bad config: Root '/r' is not a directory"
    );
    assert_eq!(
        load(&line, &["/m", "/r"]).unwrap_err().message(),
        "Bad config: Snapshot directory '/r/d' is not a directory"
    );
    assert!(load(&line, &["/m", "/r", "/r/d"]).is_ok());
}

#[test]
fn the_last_config_line_for_a_mount_point_counts() {
    let lines = ["/m\t/r\td\tp", "/n\t/r\td\tq", "/m\t/r\td\tz"];
    let config = load(&lines, &["/m", "/n", "/r", "/r/d"]).unwrap();
    assert_eq!(config.len(), 2);
    assert_eq!(config.get("/m").unwrap().prefix, "z");
    assert_eq!(config.entry(0).0, "/m");
    assert_eq!(config.entry(1).0, "/n");
}

#[test]
fn test_find_latest() {
    let re = Regex::new(r"^(.+)\.([\d_]+)$").unwrap();

    assert!(re.is_match("snap.20230101"));
    assert!(re.is_match("snap.20230101_1234"));

    let caps = re.captures("snap.20230101").unwrap();
    assert_eq!(caps.get(1).unwrap().as_str(), "snap");
    assert_eq!(caps.get(2).unwrap().as_str(), "20230101");

    assert_eq!(find_candidate("snap", "snap.20230101"), Ok(Some(text("snap.20230101"))));
    assert_eq!(find_candidate("snap", "snap.20230101_1234"), Ok(Some(text("snap.20230101_1234"))));
}

#[test]
fn candidates_are_the_prefix_and_a_timestamp() {
    assert_eq!(find_candidate("snap", "snap.2023x"), Ok(None));
    assert_eq!(find_candidate("snap", "snap."), Ok(None));
    assert_eq!(find_candidate("snap", "a.snap.1"), Ok(None));
    assert_eq!(find_candidate("snap", "snap.1\n"), Ok(None));
    assert_eq!(find_candidate("snap", "snap2.1"), Ok(None));
    assert_eq!(find_candidate("snap", "snap.\u{664}"), Ok(Some(text("snap.\u{664}"))));
    assert_eq!(find_candidate("snap", "snap.\u{b2}"), Ok(None));
    assert!(Regex::new("^\\d$").unwrap().is_match("\u{664}"));
    assert!(!Regex::new("^\\d$").unwrap().is_match("\u{b2}"));
}

#[test]
fn a_prefix_is_taken_literally() {
    assert_eq!(find_candidate("a.c+", "a.c+.1_2"), Ok(Some(text("a.c+.1_2"))));
    assert_eq!(find_candidate("a.c+", "abc+.1_2"), Ok(None));
    let meta = "\\.+*?()|[]{}^$#&-~";
    let name = format!("{}.7", meta);
    assert_eq!(find_candidate(meta, &name), Ok(Some(name.clone())));
}

#[test]
fn long_prefixes_can_be_searched_for() {
    for length in [255, 256, 65535] {
        let prefix = "\u{10000}".repeat(length);
        let name = format!("{}.1", prefix);
        assert_eq!(find_candidate(&prefix, &name), Ok(Some(name.clone())));
        assert_eq!(find_candidate(&prefix, "x.1"), Ok(None));
    }
    let prefix = "x".repeat(10_000_000);
    assert!(find_candidate(&prefix, "x.1").is_err());
}

#[test]
fn the_groups_of_a_file_name_make_a_candidate() {
    let groups = Some(vec![Some(text("p.7")), Some(text("7"))]);
    assert_eq!(candidate_from("p", &groups), Some(text("p.7")));
    assert_eq!(candidate_from("p", &None), None);
}

#[test]
fn a_snapshot_path_tells_its_series() {
    let series = Some((text("a/snaps"), text("home")));
    assert_eq!(find_series("a/snaps/home.20230101_1234"), series);
    assert_eq!(find_series("d/a.1.2"), Some((text("d"), text("a.1"))));
    assert_eq!(find_series("d/a.1x"), Some((text("d"), text("a"))));
    assert_eq!(find_series("d/a.1,b)"), Some((text("d"), text("a"))));
    assert_eq!(find_series("d/a.1/,x"), Some((text("d"), text("a"))));
    assert_eq!(find_series("d/a.\u{664}"), Some((text("d"), text("a"))));
}

#[test]
fn other_paths_belong_to_no_series() {
    assert_eq!(find_series(""), None);
    assert_eq!(find_series("home.20230101"), None);
    assert_eq!(find_series("/home.1"), None);
    assert_eq!(find_series("snaps/home"), None);
    assert_eq!(find_series("snaps/home.x1"), None);
    assert_eq!(find_series("snaps/.1"), None);
    assert_eq!(find_series("snaps/"), None);
}

#[test]
fn test_sv_impure() {
    // Test readonly, clean snapshot
    let clean = SubvolInfo {
        flags: "readonly".to_string(),
        received_uuid: "-".to_string(),
        generation: "100".to_string(),
        gen_at_creation: "100".to_string(),
    };
    assert_eq!(sv_impure(&clean), None);

    // Test read-write snapshot
    let rw = SubvolInfo {
        flags: "".to_string(),
        received_uuid: "-".to_string(),
        generation: "100".to_string(),
        gen_at_creation: "100".to_string(),
    };
    assert_eq!(sv_impure(&rw), Some("RW"));

    // Test modified snapshot
    let modified = SubvolInfo {
        flags: "readonly".to_string(),
        received_uuid: "-".to_string(),
        generation: "101".to_string(),
        gen_at_creation: "100".to_string(),
    };
    assert_eq!(sv_impure(&modified), Some("modified"));
}

#[test]
fn a_received_snapshot_is_clean() {
    let received = SubvolInfo {
        flags: "readonly".to_string(),
        received_uuid: "8f4a".to_string(),
        generation: "101".to_string(),
        gen_at_creation: "100".to_string(),
    };
    assert_eq!(sv_impure(&received), None);
}

#[test]
fn subvolume_properties_are_read() {
    let shown = "snaps/home.1\n\tName: \t\t\thome.1\n\tReceived UUID: \t\t-\r\n\
                 \tGeneration: \t\t7\n\tGen at creation: \t6\n\tFlags: \t\t\treadonly\n\
                 \tSnapshot(s):\n\tFlags: none\n";
    let info = sv_info("/r", "snaps/home.1", true, shown.as_bytes().to_vec()).unwrap();
    assert_eq!(info.flags, "readonly");
    assert_eq!(info.received_uuid, "-");
    assert_eq!(info.generation, "7");
    assert_eq!(info.gen_at_creation, "6");
}

#[test]
fn missing_properties_are_empty_and_the_last_one_counts() {
    let info = sv_info("/r", "s", true, b"s\nFlags:a:b\nFlags : c \nx".to_vec()).unwrap();
    assert_eq!(info.flags, "c");
    assert_eq!(info.received_uuid, "");
}

#[test]
fn unreadable_descriptions_are_errors() {
    assert_eq!(
        sv_info("/r", "s", false, b"s\n".to_vec()).unwrap_err().message(),
        "Command execution failed: btrfs subvolume show failed for /r/s"
    );
    for bytes in [vec![0x73, 0xff], vec![0xc3], vec![0x73, 0x0a, 0xe2, 0x82]] {
        let expected = String::from_utf8(bytes.clone()).unwrap_err().to_string();
        let error = sv_info("/r", "s", true, bytes).unwrap_err();
        assert_eq!(error.message(), expected);
        assert_eq!(error, BtramError::InvalidUtf8(expected));
    }
    assert_eq!(
        sv_info("/r", "s", true, vec![0x73, 0xff]).unwrap_err().message(),
        "invalid utf-8 sequence of 1 bytes from index 1"
    );
    assert_eq!(
        sv_info("/r", "s", true, vec![0xc3]).unwrap_err().message(),
        "incomplete utf-8 byte sequence from index 0"
    );
    let unexpected = "Command execution failed: Unexpected output from btrfs subvolume show";
    assert_eq!(sv_info("/r", "s", true, Vec::new()).unwrap_err().message(), unexpected);
    assert_eq!(sv_info("/r", "s", true, b"t\n".to_vec()).unwrap_err().message(), unexpected);
    assert_eq!(sv_info("/r", "s", true, b"s\r".to_vec()).unwrap_err().message(), unexpected);
}

#[test]
fn output_is_read_from_its_text() {
    let info = read_output("s", Ok(text("s\nFlags: readonly\n"))).unwrap();
    assert_eq!(info.flags, "readonly");
    assert_eq!(read_output("s", Err(text("why"))), Err(BtramError::InvalidUtf8(text("why"))));
    assert!(matches!(read_output("s", Ok(text("t\n"))), Err(BtramError::CommandFailed(_))));
}

#[test]
fn error_messages() {
    assert_eq!(BtramError::<String>::ConfigError.message(), "Missing or inaccessible config");
    assert_eq!(BtramError::BadSubvolPath(text("x")).message(), "Bad subvol path: x");
    assert_eq!(path_of("/r", "a/b"), "/r/a/b");
}
