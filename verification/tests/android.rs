use fstab::{AndroidV1FsEntry, AndroidV2FsEntry, FstabError, FstabType};

fn strings(parts: &[&str]) -> Vec<String> {
    parts.iter().map(|s| s.to_string()).collect()
}

fn v1(
    mount: &str,
    vfs: &str,
    spec: &str,
    spec2: Option<&str>,
    flags: Option<&[&str]>,
) -> AndroidV1FsEntry {
    AndroidV1FsEntry {
        fs_spec: spec.to_string(),
        mountpoint: mount.to_string(),
        vfs_type: vfs.to_string(),
        fs_spec2: spec2.map(|s| s.to_string()),
        fsmgr_flags: flags.map(strings),
    }
}

fn v2(spec: &str, mount: &str, vfs: &str, options: &[&str], flags: &[&str]) -> AndroidV2FsEntry {
    AndroidV2FsEntry {
        fs_spec: spec.to_string(),
        mountpoint: mount.to_string(),
        vfs_type: vfs.to_string(),
        mount_options: strings(options),
        fsmgr_flags: strings(flags),
    }
}

#[test]
fn android_v1_line_with_flags_is_read() {
    let read = AndroidV1FsEntry::parse_entry("/cache yaffs2 mtd@cache flags=backup;wipe\n");
    assert_eq!(read, Ok(v1("/cache", "yaffs2", "mtd@cache", None, Some(&["backup", "wipe"]))));
}

#[test]
fn android_v1_three_fields() {
    let read = AndroidV1FsEntry::parse_entry("/boot mtd boot");
    assert_eq!(read, Ok(v1("/boot", "mtd", "boot", None, None)));
}

#[test]
fn android_v1_fourth_field_is_second_device_or_flags() {
    assert_eq!(
        AndroidV1FsEntry::parse_entry("/sdcard vfat /dev/block/mmcblk0p1 /dev/block/mmcblk0"),
        Ok(v1("/sdcard", "vfat", "/dev/block/mmcblk0p1", Some("/dev/block/mmcblk0"), None))
    );
    assert_eq!(
        AndroidV1FsEntry::parse_entry("/sdcard vfat /dev/block/mmcblk0p1 flags=a"),
        Ok(v1("/sdcard", "vfat", "/dev/block/mmcblk0p1", None, Some(&["a"])))
    );
    assert_eq!(
        AndroidV1FsEntry::parse_entry("/sdcard vfat dev xflags=a"),
        Ok(v1("/sdcard", "vfat", "dev", Some("xflags=a"), None))
    );
    assert_eq!(
        AndroidV1FsEntry::parse_entry("/sdcard vfat dev flags"),
        Ok(v1("/sdcard", "vfat", "dev", Some("flags"), None))
    );
}

#[test]
fn android_v1_five_fields() {
    assert_eq!(
        AndroidV1FsEntry::parse_entry("/sdcard vfat one two flags=a;b;c"),
        Ok(v1("/sdcard", "vfat", "one", Some("two"), Some(&["a", "b", "c"])))
    );
}

#[test]
fn android_v1_flags_are_all_that_follows_the_prefix() {
    assert_eq!(
        AndroidV1FsEntry::parse_entry("m t s flags=a;;b").unwrap().fsmgr_flags,
        Some(strings(&["a", "", "b"]))
    );
    assert_eq!(
        AndroidV1FsEntry::parse_entry("m t s flags=;").unwrap().fsmgr_flags,
        Some(strings(&["", ""]))
    );
    assert_eq!(
        AndroidV1FsEntry::parse_entry("m t s flags=a;flags=b").unwrap().fsmgr_flags,
        Some(strings(&["a", "flags=b"]))
    );
    assert_eq!(
        AndroidV1FsEntry::parse_entry("m t s flags=length=10,wipe").unwrap().fsmgr_flags,
        Some(strings(&["length=10,wipe"]))
    );
}

#[test]
fn android_v1_bare_flags_are_missing_flags() {
    assert_eq!(AndroidV1FsEntry::parse_entry("m t s flags="), Err(FstabError::FlagsMissing));
    assert_eq!(AndroidV1FsEntry::parse_entry("m t s s2 flags="), Err(FstabError::FlagsMissing));
    assert_eq!(AndroidV1FsEntry::parse_entry("m t s flags=\n"), Err(FstabError::FlagsMissing));
}

#[test]
fn android_v1_fifth_field_must_be_flags() {
    assert_eq!(AndroidV1FsEntry::parse_entry("m t s s2 wipe"), Err(FstabError::FlagsMissing));
    assert_eq!(AndroidV1FsEntry::parse_entry("m t s s2 xflags=a"), Err(FstabError::FlagsMissing));
    assert_eq!(AndroidV1FsEntry::parse_entry("m t s s2 flag=a"), Err(FstabError::FlagsMissing));
}

#[test]
fn android_v1_wrong_number_of_fields_is_malformed() {
    assert_eq!(AndroidV1FsEntry::parse_entry(""), Err(FstabError::MalformedEntry));
    assert_eq!(AndroidV1FsEntry::parse_entry("m t"), Err(FstabError::MalformedEntry));
    assert_eq!(AndroidV1FsEntry::parse_entry("m t s s2 flags=a x"), Err(FstabError::MalformedEntry));
    for n in 0..10 {
        let fields: Vec<String> = (0..n).map(|_| "flags=x".to_string()).collect();
        let line = fields.join(" ");
        assert_eq!(AndroidV1FsEntry::parse_entry(&line).is_ok(), 3 <= n && n <= 5, "{}", n);
    }
}

#[test]
fn android_v1_line_is_written_with_its_gaps() {
    assert_eq!(v1("/boot", "mtd", "boot", None, None).encode(), "/boot mtd boot  \n");
    assert_eq!(v1("/sd", "vfat", "one", Some("two"), None).encode(), "/sd vfat one two \n");
    assert_eq!(
        v1("/cache", "yaffs2", "mtd@cache", None, Some(&["backup", "wipe"])).encode(),
        "/cache yaffs2 mtd@cache  flags=backup;wipe\n"
    );
    assert_eq!(
        v1("/sd", "vfat", "one", Some("two"), Some(&["a", "b"])).encode(),
        "/sd vfat one two flags=a;b\n"
    );
}

#[test]
fn android_v1_round_trip_keeps_the_entry() {
    for line in [
        "/boot mtd boot",
        "/sd vfat one two",
        "/cache yaffs2 mtd@cache flags=backup;wipe",
        "/sd vfat one two flags=a;b",
        "\t/sd   vfat one\ttwo  flags=a;;b\r\n",
    ] {
        let read = AndroidV1FsEntry::parse_entry(line).unwrap();
        let written = read.encode();
        let expected: Vec<&str> = line.split_whitespace().collect();
        let got: Vec<&str> = written.split_whitespace().collect();
        assert_eq!(got, expected);
        assert_eq!(AndroidV1FsEntry::parse_entry(&written), Ok(read));
    }
    let exact = "/sd vfat one two flags=a;b\n";
    assert_eq!(AndroidV1FsEntry::parse_entry(exact).unwrap().encode(), exact);
}

#[test]
fn android_v1_table_is_written_and_read() {
    let entries = vec![
        v1("/boot", "mtd", "boot", None, None),
        v1("/cache", "yaffs2", "cache", None, Some(&["backup"])),
        v1("/sd", "vfat", "one", Some("two"), Some(&["a", "b"])),
    ];
    let text = AndroidV1FsEntry::save_fstab(entries.clone());
    assert_eq!(text, "/boot mtd boot  \n/cache yaffs2 cache  flags=backup\n/sd vfat one two flags=a;b\n");
    assert_eq!(AndroidV1FsEntry::parse_entries(&text), Ok(FstabType::AndroidV1(entries.clone())));
    assert_eq!(AndroidV1FsEntry::get_struct(entries.clone()), FstabType::AndroidV1(entries));
}

#[test]
fn android_v1_entries_skip_comments_and_bad_lines() {
    let text = "# mount type device\n/boot mtd boot\n/x y z w flags=\n#/sd vfat one\ntoo few\n";
    assert_eq!(
        AndroidV1FsEntry::parse_entries(text),
        Ok(FstabType::AndroidV1(vec![v1("/boot", "mtd", "boot", None, None)]))
    );
}

#[test]
fn android_v2_line_is_read() {
    let read = AndroidV2FsEntry::parse_entry(
        "/dev/block/by-name/system /system ext4 ro,barrier=1 wait,verify\n",
    );
    assert_eq!(
        read,
        Ok(v2("/dev/block/by-name/system", "/system", "ext4", &["ro", "barrier=1"], &["wait", "verify"]))
    );
}

#[test]
fn android_v2_wrong_number_of_fields_is_malformed() {
    assert_eq!(AndroidV2FsEntry::parse_entry("a b c d"), Err(FstabError::MalformedEntry));
    assert_eq!(AndroidV2FsEntry::parse_entry("a b c d e f"), Err(FstabError::MalformedEntry));
    for n in 0..10 {
        let fields: Vec<String> = (0..n).map(|_| "x".to_string()).collect();
        let line = fields.join(" ");
        assert_eq!(AndroidV2FsEntry::parse_entry(&line).is_ok(), n == 5, "{}", n);
    }
}

#[test]
fn android_v2_line_is_written() {
    assert_eq!(
        v2("/dev/block/sda1", "/data", "f2fs", &["noatime", "nosuid"], &["wait"]).encode(),
        "/dev/block/sda1 /data f2fs noatime,nosuid wait\n"
    );
}

#[test]
fn android_v2_round_trip() {
    let exact = "/dev/block/sda1 /data f2fs noatime,nosuid wait,check\n";
    assert_eq!(AndroidV2FsEntry::parse_entry(exact).unwrap().encode(), exact);
    let loose = "  /dev/block/sda1\t/data f2fs   noatime,,nosuid wait  ";
    let read = AndroidV2FsEntry::parse_entry(loose).unwrap();
    assert_eq!(read.encode(), "/dev/block/sda1 /data f2fs noatime,,nosuid wait\n");
    assert_eq!(AndroidV2FsEntry::parse_entry(&read.encode()), Ok(read));
}

#[test]
fn android_v2_table_is_written_and_read() {
    let entries = vec![
        v2("/dev/block/sda1", "/system", "ext4", &["ro"], &["wait"]),
        v2("/dev/block/sda2", "/data", "ext4", &["noatime", "nosuid"], &["wait", "check"]),
    ];
    let text = AndroidV2FsEntry::save_fstab(entries.clone());
    assert_eq!(
        text,
        "/dev/block/sda1 /system ext4 ro wait\n/dev/block/sda2 /data ext4 noatime,nosuid wait,check\n"
    );
    assert_eq!(AndroidV2FsEntry::parse_entries(&text), Ok(FstabType::AndroidV2(entries.clone())));
    assert_eq!(AndroidV2FsEntry::get_struct(entries.clone()), FstabType::AndroidV2(entries));
}

#[test]
fn android_defaults_are_empty() {
    assert_eq!(AndroidV1FsEntry::default(), v1("", "", "", None, None));
    assert_eq!(AndroidV2FsEntry::default(), v2("", "", "", &[], &[]));
}
