use myboot::cpio::{mode_type_name, normalize_path, perm_string, Cpio, CpioEntry, CpioError};

fn entry(mode: u32, uid: u32, gid: u32, data: Option<&[u8]>) -> CpioEntry {
    CpioEntry {
        mode,
        uid,
        gid,
        rdev_major: 0,
        rdev_minor: 0,
        data: data.map(|d| d.to_vec()),
        symlink: None,
    }
}

fn hex8(v: u64) -> String {
    format!("{:08x}", v)
}

fn header(mode: u32, uid: u32, gid: u32, filesize: u64, namesize: u64) -> Vec<u8> {
    let mut h = String::from("070701");
    for v in [0, mode as u64, uid as u64, gid as u64, 1, 0, filesize, 0, 0, 0, 0, namesize, 0] {
        h.push_str(&hex8(v));
    }
    h.into_bytes()
}

fn pad4(v: &mut Vec<u8>) {
    while v.len() % 4 != 0 {
        v.push(0);
    }
}

fn record(name: &str, mode: u32, uid: u32, gid: u32, data: &[u8]) -> Vec<u8> {
    let mut v = header(mode, uid, gid, data.len() as u64, name.len() as u64 + 1);
    v.extend_from_slice(name.as_bytes());
    v.push(0);
    pad4(&mut v);
    v.extend_from_slice(data);
    pad4(&mut v);
    v
}

#[test]
fn mode_type_names() {
    assert_eq!(mode_type_name(0o040755), "dir");
    assert_eq!(mode_type_name(0o100644), "reg");
    assert_eq!(mode_type_name(0o120777), "sym");
    assert_eq!(mode_type_name(0o060600), "blk");
    assert_eq!(mode_type_name(0o020600), "chr");
    assert_eq!(mode_type_name(0o010600), "fifo");
    assert_eq!(mode_type_name(0o140600), "sock");
    assert_eq!(mode_type_name(0o000644), "???");
}

#[test]
fn perm_strings() {
    assert_eq!(perm_string(0o040755), "drwxr-xr-x");
    // Any bit of the symlink type, the regular-file bit among them, shows as a link.
    assert_eq!(perm_string(0o100644), "lrw-r--r--");
    assert_eq!(perm_string(0o000644), "-rw-r--r--");
    assert_eq!(perm_string(0o006755), "-rwsr-sr-x");
    assert_eq!(perm_string(0o007644), "-rwSr-Sr-T");
    assert_eq!(perm_string(0o001777), "-rwxrwxrwt");
}

#[test]
fn normalize_strips_prefixes() {
    assert_eq!(normalize_path("/./init"), b"init".to_vec());
    assert_eq!(normalize_path("//a/b"), b"a/b".to_vec());
    assert_eq!(normalize_path("././x"), b"x".to_vec());
    assert_eq!(normalize_path("a\0b"), b"a".to_vec());
    assert_eq!(normalize_path("/"), Vec::<u8>::new());
    // Each byte of a multi-byte character becomes a character of its own.
    assert_eq!(normalize_path("\u{e9}"), vec![0xc3, 0x83, 0xc2, 0xa9]);
}

#[test]
fn add_exists_rm_mv() {
    let mut c = Cpio::new();
    c.add("/init", entry(0o100755, 0, 0, Some(b"x")));
    c.add("sbin/a", entry(0o100644, 0, 0, None));
    c.add("sbin/b/c", entry(0o100644, 0, 0, None));
    c.add("sbin", entry(0o040755, 0, 0, None));
    assert!(c.path_exists("init"));
    assert!(c.path_exists("./init"));
    assert!(!c.path_exists("nope"));
    c.mv("init", "init2").unwrap();
    assert!(!c.path_exists("init"));
    assert!(c.path_exists("init2"));
    c.mv("missing", "other").unwrap();
    assert!(!c.path_exists("other"));
    c.rm("sbin", true).unwrap();
    assert!(!c.path_exists("sbin"));
    assert!(!c.path_exists("sbin/a"));
    assert!(!c.path_exists("sbin/b/c"));
    assert!(c.path_exists("init2"));
    c.add("d", entry(0o040755, 0, 0, None));
    c.add("d/", entry(0o040755, 0, 0, None));
    c.add("d/x", entry(0o100644, 0, 0, None));
    c.rm("d", false).unwrap();
    assert!(!c.path_exists("d"));
    assert!(!c.path_exists("d/"));
    assert!(c.path_exists("d/x"));
}

#[test]
fn magisk_markers() {
    let mut c = Cpio::new();
    assert!(!c.is_magisk_patched());
    c.add("overlay/init.magisk.rc", entry(0o100644, 0, 0, None));
    assert!(c.is_magisk_patched());
}

#[test]
fn empty_archive_dump() {
    let c = Cpio::new();
    let mut expected = header(0, 0, 0, 0, 11);
    expected.extend_from_slice(b"TRAILER!!!\0");
    pad4(&mut expected);
    assert_eq!(c.dump(), expected);
}

#[test]
fn dump_numbers_inodes_and_sorts_names() {
    let mut c = Cpio::new();
    c.add("b", entry(0o100644, 5, 6, Some(b"xyz")));
    c.add("a", entry(0o040755, 0, 0, None));
    let out = c.dump();
    let s = String::from_utf8_lossy(&out[..110]).to_string();
    assert_eq!(&s[6..14], "000493e0");
    assert_eq!(&out[110..112], b"a\0");
    let second = 112;
    let s2 = String::from_utf8_lossy(&out[second..second + 110]).to_string();
    assert_eq!(&s2[6..14], "000493e1");
    assert_eq!(&s2[22..30], "00000005");
    assert_eq!(&s2[54..62], "00000003");
}

#[test]
fn load_reads_records() {
    let mut data = record("init", 0o040755, 0, 0, b"");
    data.extend(record("file", 0o000644, 0, 0, b"hello"));
    data.extend(record("TRAILER!!!", 0, 0, 0, b""));
    let c = Cpio::load_from_data(&data).unwrap();
    assert!(c.path_exists("init"));
    assert!(c.path_exists("file"));
    let (_, e) = c.entries().get_at(0);
    assert_eq!(e.data, Some(b"hello".to_vec()));
    assert_eq!(c.entries().len(), 2);
}

#[test]
fn load_of_dump_gives_entries_back_as_read() {
    let mut c = Cpio::new();
    c.add("bin/tool", entry(0o000755, 7, 3, Some(b"hello")));
    c.add("init", entry(0o100750, 2, 2, Some(b"abc")));
    let back = Cpio::load_from_data(&c.dump()).unwrap();
    assert_eq!(back.entries().len(), 2);
    let (n0, e0) = back.entries().get_at(0);
    assert_eq!(n0, &b"bin/tool".to_vec());
    // The reader takes the group field as owner and the link count as group.
    assert_eq!(e0.uid, 3);
    assert_eq!(e0.gid, 1);
    assert_eq!(e0.mode, 0o000755);
    assert_eq!(e0.data, Some(b"hello".to_vec()));
    assert_eq!(e0.symlink, None);
    let (n1, e1) = back.entries().get_at(1);
    assert_eq!(n1, &b"init".to_vec());
    // Data under a mode with a symlink bit comes back as a link target.
    assert_eq!(e1.data, None);
    assert_eq!(e1.symlink, Some(b"abc".to_vec()));
}

#[test]
fn load_errors() {
    let mut bad_magic = record("x", 0, 0, 0, b"");
    bad_magic[0] = b'1';
    assert!(matches!(Cpio::load_from_data(&bad_magic), Err(CpioError::BadMagic)));

    let mut bad_hex = record("x", 0, 0, 0, b"");
    bad_hex[94] = b'z';
    assert!(matches!(Cpio::load_from_data(&bad_hex), Err(CpioError::InvalidHex)));

    let mut bad_utf8 = record("x", 0, 0, 0, b"");
    bad_utf8[95] = 0xff;
    assert!(matches!(Cpio::load_from_data(&bad_utf8), Err(CpioError::InvalidUtf8)));

    let mut long_name = header(0, 0, 0, 0, 0x100);
    long_name.extend_from_slice(b"ab\0\0");
    assert!(matches!(Cpio::load_from_data(&long_name), Err(CpioError::TruncatedHeader)));

    let mut long_data = header(0, 0, 0, 0x100, 2);
    long_data.extend_from_slice(b"a\0\0\0");
    assert!(matches!(Cpio::load_from_data(&long_data), Err(CpioError::TruncatedData)));

    let mut bad_name = header(0, 0, 0, 0, 2);
    bad_name.extend_from_slice(&[0xff, 0, 0, 0]);
    assert!(matches!(Cpio::load_from_data(&bad_name), Err(CpioError::InvalidUtf8)));
}

#[test]
fn plus_sign_in_hex_fields() {
    let mut data = record("x", 0, 0, 0, b"");
    data[14..22].copy_from_slice(b"+0000041");
    data.extend(record("TRAILER!!!", 0, 0, 0, b""));
    let c = Cpio::load_from_data(&data).unwrap();
    assert_eq!(c.entries().get_at(0).1.mode, 0x41);
}

#[test]
fn short_input_is_empty_archive() {
    let c = Cpio::load_from_data(b"070701").unwrap();
    assert_eq!(c.entries().len(), 0);
}

#[test]
fn entry_text_and_listing() {
    let mut e = entry(0o040755, 0, 2000, None);
    assert_eq!(e.to_string(), "drwxr-xr-x    0 2000        0");
    e.rdev_major = 1;
    e.rdev_minor = 3;
    assert_eq!(e.to_string(), "drwxr-xr-x    0 2000        0   1,  3");

    let mut c = Cpio::new();
    c.add("dir", entry(0o040755, 0, 0, None));
    c.add("dir/file", entry(0o000644, 0, 0, Some(b"abc")));
    c.add("dir/sub/deep", entry(0o000644, 0, 0, None));
    let mut link = entry(0o120777, 0, 0, None);
    link.symlink = Some(b"target".to_vec());
    c.add("dir/link", link);
    let text = String::from_utf8(c.ls("dir", false)).unwrap();
    assert_eq!(
        text,
        "-rw-r--r--    0    0        3 file\nlrwxrwxrwx    0    0        0 link\n -> target\n"
    );
    let all = String::from_utf8(c.ls("/", true)).unwrap();
    assert_eq!(all.lines().count(), 5);
    assert!(all.starts_with("drwxr-xr-x    0    0        0 dir\n"));
}

#[test]
fn leading_slash_and_dot_slash_reach_the_same_file() {
    let mut c = Cpio::new();
    c.add("etc/init.rc", entry(0o100644, 0, 0, Some(b"on boot")));
    assert!(c.path_exists("etc/init.rc"));
    assert!(c.path_exists("/etc/init.rc"));
    assert!(c.path_exists("./etc/init.rc"));
    assert_eq!(normalize_path("/etc/init.rc"), normalize_path("etc/init.rc"));
    assert_eq!(normalize_path("./etc/init.rc"), normalize_path("etc/init.rc"));
}

#[test]
fn ascii_path_is_its_own_key() {
    let mut c = Cpio::new();
    c.add("etc/init.rc", entry(0o100644, 0, 0, Some(b"on boot")));
    assert!(c.entries().contains(b"etc/init.rc"));
    let (k, _) = c.entries().get_at(0);
    assert_eq!(k.as_slice(), b"etc/init.rc");
    assert_eq!(normalize_path("etc/init.rc"), b"etc/init.rc".to_vec());
}
