use fstab::detect::{classify_fields, fields_are_comment};
use fstab::{
    detect, AndroidV1FsEntry, AndroidV2FsEntry, Dialect, FsTab, FstabError, FstabType,
    IntegerFault, LinuxFsEntry,
};

fn strings(parts: &[&str]) -> Vec<String> {
    parts.iter().map(|s| s.to_string()).collect()
}

fn linux(spec: &str, mount: &str) -> LinuxFsEntry {
    LinuxFsEntry {
        fs_spec: spec.to_string(),
        mountpoint: mount.to_string(),
        vfs_type: "ext4".to_string(),
        mount_options: strings(&["defaults"]),
        dump: false,
        fsck_order: 1,
    }
}

#[test]
fn six_fields_are_linux() {
    assert_eq!(detect("/dev/sda1 / ext4 defaults 0 1\n"), Some(Dialect::Linux));
    assert_eq!(detect("none / tmpfs defaults 0 0"), Some(Dialect::Linux));
    assert_eq!(classify_fields(&strings(&["a", "b", "c", "d", "e", "f"])), Some(Dialect::Linux));
}

#[test]
fn three_to_five_fields_without_device_prefix_are_android_v1() {
    assert_eq!(detect("/boot mtd boot\n"), Some(Dialect::AndroidV1));
    assert_eq!(detect("/cache yaffs2 mtd@cache flags=backup;wipe\n"), Some(Dialect::AndroidV1));
    assert_eq!(detect("/sd vfat one two flags=a\n"), Some(Dialect::AndroidV1));
    assert_eq!(detect("dev/x /system ext4 ro wait\n"), Some(Dialect::AndroidV1));
}

#[test]
fn five_fields_with_device_prefix_are_android_v2() {
    assert_eq!(detect("/dev/block/sda1 /system ext4 ro wait\n"), Some(Dialect::AndroidV2));
    assert_eq!(detect("/dev/ /system ext4 ro wait\n"), Some(Dialect::AndroidV2));
}

#[test]
fn other_shapes_tell_nothing() {
    assert_eq!(detect("/dev/block/sda1 /system ext4\n"), None);
    assert_eq!(detect("/dev/block/sda1 /system ext4 ro\n"), None);
    assert_eq!(detect("one two\n"), None);
    assert_eq!(detect("a b c d e f g\n"), None);
    assert_eq!(classify_fields(&strings(&[])), None);
    assert_eq!(classify_fields(&strings(&["#", "b", "c", "d", "e", "f"])), None);
}

#[test]
fn first_telling_line_decides() {
    assert_eq!(
        detect("one two\n/dev/x /system ext4\n/boot mtd boot\n/dev/sda1 / ext4 defaults 0 1\n"),
        Some(Dialect::AndroidV1)
    );
    assert_eq!(
        detect("/dev/sda1 / ext4 defaults 0 1\n/boot mtd boot\n"),
        Some(Dialect::Linux)
    );
    assert_eq!(
        detect("/dev/block/sda1 /system ext4 ro wait\n/dev/sda1 / ext4 defaults 0 1\n"),
        Some(Dialect::AndroidV2)
    );
}

#[test]
fn comments_tell_nothing() {
    assert_eq!(detect("# a b c d e\n/boot mtd boot\n"), Some(Dialect::AndroidV1));
    assert_eq!(detect("   # a b c d e f\n/dev/block/sda1 /system ext4 ro wait\n"), Some(Dialect::AndroidV2));
    assert_eq!(detect("#a b c 0 1 x\n"), None);
    assert!(fields_are_comment(&strings(&["#", "x"])));
    assert!(fields_are_comment(&strings(&["#x"])));
    assert!(!fields_are_comment(&strings(&["x#"])));
    assert!(!fields_are_comment(&strings(&[])));
}

#[test]
fn detection_is_repeatable() {
    let text = "# table\n/boot mtd boot\n/dev/sda1 / ext4 defaults 0 1\n";
    let first = detect(text);
    assert_eq!(detect(text), first);
    assert_eq!(detect(&text.to_string()), first);
    assert_eq!(first, Some(Dialect::AndroidV1));
}

#[test]
fn comments_and_blank_lines_alone_are_unsupported() {
    let table = FsTab::new("/etc/fstab");
    for text in ["", "\n", "\n\n   \n", "# one\n# two\n", "\n# /dev/sda1 / ext4 defaults 0 1\n\n", "   \t\n#\n"] {
        assert_eq!(table.parse_entries(text), Err(FstabError::UnsupportedFormat), "{:?}", text);
        assert_eq!(detect(text), None);
    }
}

#[test]
fn comment_lines_give_no_entry() {
    let table = FsTab::new("/etc/fstab");
    let text = "# /dev/sda9 /old ext4 defaults 0 1\n/dev/sda1 / ext4 defaults 0 1\n#/dev/sda8 /gone ext4 defaults 0 1\n   # /dev/sda7 /lost ext4 defaults 0 1\n/dev/sda2 /home ext4 defaults 0 1\n";
    assert_eq!(
        table.parse_entries(text),
        Ok(FstabType::Linux(vec![linux("/dev/sda1", "/"), linux("/dev/sda2", "/home")]))
    );
}

#[test]
fn lines_of_another_dialect_are_left_out() {
    let table = FsTab::new("/etc/fstab");
    let text = "/dev/sda1 / ext4 defaults 0 1\n/boot mtd boot\n/dev/block/sda1 /system ext4 ro wait\n/dev/sda2 /home ext4 defaults 0 1\n";
    assert_eq!(
        table.parse_entries(text),
        Ok(FstabType::Linux(vec![linux("/dev/sda1", "/"), linux("/dev/sda2", "/home")]))
    );
}

#[test]
fn first_line_may_tell_the_dialect_and_be_left_out() {
    let table = FsTab::new("/etc/fstab");
    let text = "/x y z w nothing\n/boot mtd boot\n";
    assert_eq!(
        table.parse_entries(text),
        Ok(FstabType::AndroidV1(vec![AndroidV1FsEntry {
            fs_spec: "boot".to_string(),
            mountpoint: "/boot".to_string(),
            vfs_type: "mtd".to_string(),
            fs_spec2: None,
            fsmgr_flags: None,
        }]))
    );
    let odd = "/dev/sda1 / ext4 defaults 0 none\n";
    assert_eq!(table.parse_entries(odd), Ok(FstabType::Linux(Vec::new())));
}

#[test]
fn table_keeps_its_location() {
    let table = FsTab::new("/etc/fstab");
    assert_eq!(table.location(), "/etc/fstab");
    assert_eq!(FsTab::new("").location(), "");
}

#[test]
fn linux_table_is_saved_and_read_back() {
    let table = FsTab::new("/etc/fstab");
    let entries = vec![linux("/dev/sda1", "/"), linux("UUID=abc", "/home")];
    let text = table.save_entry(FstabType::Linux(entries.clone()));
    assert_eq!(text, "/dev/sda1 / ext4 defaults 0 1\nUUID=abc /home ext4 defaults 0 1\n");
    assert_eq!(table.parse_entries(&text), Ok(FstabType::Linux(entries)));
}

#[test]
fn android_tables_are_saved_and_read_back() {
    let table = FsTab::new("/fstab.device");
    let first = vec![AndroidV1FsEntry {
        fs_spec: "mtd@cache".to_string(),
        mountpoint: "/cache".to_string(),
        vfs_type: "yaffs2".to_string(),
        fs_spec2: None,
        fsmgr_flags: Some(strings(&["backup", "wipe"])),
    }];
    let text = table.save_entry(FstabType::AndroidV1(first.clone()));
    assert_eq!(text, "/cache yaffs2 mtd@cache  flags=backup;wipe\n");
    assert_eq!(table.parse_entries(&text), Ok(FstabType::AndroidV1(first)));

    let second = vec![AndroidV2FsEntry {
        fs_spec: "/dev/block/sda1".to_string(),
        mountpoint: "/system".to_string(),
        vfs_type: "ext4".to_string(),
        mount_options: strings(&["ro"]),
        fsmgr_flags: strings(&["wait"]),
    }];
    let text = table.save_entry(FstabType::AndroidV2(second.clone()));
    assert_eq!(text, "/dev/block/sda1 /system ext4 ro wait\n");
    assert_eq!(table.parse_entries(&text), Ok(FstabType::AndroidV2(second)));
}

#[test]
fn empty_table_is_saved_as_empty_text() {
    let table = FsTab::new("/etc/fstab");
    assert_eq!(table.save_entry(FstabType::Linux(Vec::new())), "");
    assert_eq!(table.save_entry(FstabType::AndroidV1(Vec::new())), "");
    assert_eq!(table.save_entry(FstabType::AndroidV2(Vec::new())), "");
}

#[test]
fn errors_have_messages() {
    assert_eq!(FstabError::UnsupportedFormat.message(), "Unsupported file passed");
    assert_eq!(FstabError::MalformedEntry.message(), "This entry is unexpected");
    assert_eq!(
        FstabError::FlagsMissing.message(),
        "The attribute flags= was defined but no flags are present"
    );
    assert_eq!(
        FstabError::InvalidInteger(IntegerFault::Empty).message(),
        "cannot parse integer from empty string"
    );
    assert_eq!(
        FstabError::InvalidInteger(IntegerFault::InvalidDigit).message(),
        "invalid digit found in string"
    );
    assert_eq!(
        FstabError::InvalidInteger(IntegerFault::Overflow).message(),
        "number too large to fit in target type"
    );
}
