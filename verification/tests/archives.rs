use lua_bindings::archive::{
    archive_entry_names, archive_file_name, archive_tally, compression_preset, ignore_matches, pack_settings,
    should_ignore, tally_sizes, ArchiveTally,
    CompressionPreset,
};

#[test]
fn archive_names() {
    assert_eq!(archive_file_name("backup"), "backup.tar.gz");
    assert_eq!(archive_file_name("backup.tar.gz"), "backup.tar.gz");
    assert_eq!(archive_file_name("backup.tgz"), "backup.tgz");
    assert_eq!(archive_file_name("backup.gz"), "backup.gz.tar.gz");
    let once = archive_file_name("x");
    assert_eq!(archive_file_name(&once), once);
}

#[test]
fn presets() {
    assert_eq!(compression_preset(0), CompressionPreset::NoCompression);
    assert_eq!(compression_preset(1), CompressionPreset::Fast);
    assert_eq!(compression_preset(3), CompressionPreset::Fast);
    assert_eq!(compression_preset(4), CompressionPreset::Balanced);
    assert_eq!(compression_preset(6), CompressionPreset::Balanced);
    assert_eq!(compression_preset(7), CompressionPreset::Best);
    assert_eq!(compression_preset(9), CompressionPreset::Best);
    assert_eq!(compression_preset(100), CompressionPreset::Best);
}

#[test]
fn settings_from_options() {
    let s = pack_settings(None, None, None);
    assert!(s.ignore.is_empty());
    assert_eq!(s.level, 9);
    let s = pack_settings(Some(vec![".git".to_string()]), Some(4), None);
    assert_eq!(s.ignore, vec![".git".to_string()]);
    assert_eq!(s.level, 4);
    assert_eq!(pack_settings(None, Some(42), None).level, 9);
    assert_eq!(pack_settings(None, Some(2), Some(true)).level, 9);
    assert_eq!(pack_settings(None, Some(2), Some(false)).level, 2);
}

#[test]
fn ignore_rules() {
    let list = vec!["node_modules".to_string(), ".log".to_string()];
    assert!(!should_ignore("src/main.rs", &Vec::new()));
    assert!(should_ignore("proj/node_modules/x.js", &list));
    assert!(should_ignore("proj/app.log", &list));
    assert!(!should_ignore("proj/app.txt", &list));
    let exact = vec!["Makefile".to_string()];
    assert!(should_ignore("proj/Makefile", &exact));
    assert!(ignore_matches("p/q", "q", &None, &vec!["q".to_string()]));
    assert!(ignore_matches("p/a.rs", "a.rs", &Some("rs".to_string()), &vec![".rs".to_string()]));
    assert!(!ignore_matches("p/a.rs", "a.rs", &Some("rs".to_string()), &vec!["x".to_string()]));
}

#[test]
fn tally() {
    let mut t = ArchiveTally::new();
    for size in [10u64, 0, 32] {
        assert!(t.can_add(size));
        t.add(size);
    }
    assert_eq!(t.files, 3);
    assert_eq!(t.total_size, 42);
    assert!(!t.can_add(u64::MAX));
}

#[test]
fn ignore_is_a_substring_test() {
    let l = vec!["node_modules".to_string()];
    assert!(should_ignore("proj/node_modules/x.js", &l));
    assert!(!should_ignore("proj/src/main.rs", &l));
    assert!(!should_ignore("proj/node_modules", &Vec::new()));
    let t = vec!["target".to_string()];
    assert!(should_ignore("src/targets.rs", &t));
    assert!(should_ignore("anything/at/all", &vec![String::new()]));
    assert!(!should_ignore("src/lib.rs", &vec![".toml".to_string(), "Cargo".to_string()]));
}

fn sample_archive(entries: &[(&str, &[u8])]) -> Vec<u8> {
    let enc = flate2::write::GzEncoder::new(Vec::new(), flate2::Compression::default());
    let mut builder = tar::Builder::new(enc);
    for (name, data) in entries {
        let mut header = tar::Header::new_gnu();
        header.set_size(data.len() as u64);
        header.set_mode(0o644);
        header.set_cksum();
        builder.append_data(&mut header, name, *data).unwrap();
    }
    builder.into_inner().unwrap().finish().unwrap()
}

#[test]
fn reading_archive_entries() {
    let bytes = sample_archive(&[("a.txt", b"abc"), ("dir/b.txt", b"hello")]);
    assert_eq!(archive_entry_names(&bytes).unwrap(), vec!["a.txt".to_string(), "dir/b.txt".to_string()]);
    let tally = archive_tally(&bytes).unwrap().unwrap();
    assert_eq!((tally.files, tally.total_size), (2, 8));
    let empty = sample_archive(&[]);
    assert!(archive_entry_names(&empty).unwrap().is_empty());
    assert_eq!(archive_tally(&empty).unwrap().unwrap().files, 0);
    assert!(archive_entry_names(b"not an archive at all").is_err());
    assert!(archive_tally(b"not an archive at all").is_err());
}

#[test]
fn tallying_sizes() {
    let t = tally_sizes(&vec![10, 0, 32]).unwrap();
    assert_eq!((t.files, t.total_size), (3, 42));
    let t = tally_sizes(&Vec::new()).unwrap();
    assert_eq!((t.files, t.total_size), (0, 0));
    assert!(tally_sizes(&vec![u64::MAX, 1]).is_none());
    assert!(tally_sizes(&vec![u64::MAX]).is_some());
}
