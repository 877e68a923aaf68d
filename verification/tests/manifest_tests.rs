use soma::manifest::{BinaryConfig, FileEntry, FilePermissions, Manifest};
use soma::NameString;
use soma::SomaError;

fn entry(path: &str, public: Option<bool>, target: Option<&str>) -> FileEntry {
    FileEntry::new(
        String::from(path),
        public,
        target.map(String::from),
        None,
    )
}

fn manifest(work_dir: Option<&str>, executable: Vec<FileEntry>, readonly: Vec<FileEntry>) -> Manifest {
    Manifest::new(
        NameString::try_from("simple-bof").unwrap(),
        work_dir.map(String::from),
        BinaryConfig::new(String::from("ubuntu:18.04"), String::from("./bof"), executable, readonly),
    )
}

#[test]
fn common_test_file_permissions_ser() {
    assert_eq!(FilePermissions::Executable.permissions_string(), "550");
    assert_eq!(FilePermissions::ReadOnly.permissions_string(), "440");
    assert_eq!(FilePermissions::Custom(0o777).permissions_string(), "777");
}

#[test]
fn common_test_file_permissions_de() {
    assert_eq!(
        FilePermissions::from_octal_str("550"),
        Some(FilePermissions::Custom(0o550))
    );
    assert_eq!(
        FilePermissions::from_octal_str("440"),
        Some(FilePermissions::Custom(0o440))
    );
    assert_eq!(
        FilePermissions::from_octal_str("777"),
        Some(FilePermissions::Custom(0o777))
    );
    assert_eq!(FilePermissions::from_octal_str("1000"), None);
}

#[test]
fn repo_test_file_permissions_ser() {
    assert_eq!(FilePermissions::Executable.permissions_string(), "550");
    assert_eq!(FilePermissions::ReadOnly.permissions_string(), "440");
    assert_eq!(FilePermissions::Custom(0o777).permissions_string(), "777");
}

#[test]
fn repo_test_file_permissions_de() {
    assert_eq!(
        FilePermissions::from_octal_str("550"),
        Some(FilePermissions::Custom(0o550))
    );
    assert_eq!(
        FilePermissions::from_octal_str("440"),
        Some(FilePermissions::Custom(0o440))
    );
    assert_eq!(
        FilePermissions::from_octal_str("777"),
        Some(FilePermissions::Custom(0o777))
    );
    assert_eq!(FilePermissions::from_octal_str("1000"), None);
}

#[test]
fn permissions_rejects_non_octal() {
    assert_eq!(FilePermissions::from_octal_str(""), None);
    assert_eq!(FilePermissions::from_octal_str("778"), None);
    assert_eq!(FilePermissions::from_octal_str("+550"), None);
    assert_eq!(FilePermissions::from_octal_str("55a"), None);
    assert_eq!(
        FilePermissions::from_octal_str("000777"),
        Some(FilePermissions::Custom(0o777))
    );
    assert_eq!(FilePermissions::from_octal_str("77777777777777"), None);
}

#[test]
fn permissions_mode_values() {
    assert_eq!(FilePermissions::Executable.mode(), 0o550);
    assert_eq!(FilePermissions::ReadOnly.mode(), 0o440);
    assert_eq!(FilePermissions::Custom(0o123).mode(), 0o123);
}

#[test]
fn solidify_defaults() {
    let m = manifest(
        None,
        vec![entry("build/bof", Some(true), None)],
        vec![entry("flag", None, None)],
    );
    let solid = m.solidify().unwrap();
    assert_eq!(solid.work_dir, "/home/simple-bof");
    let entries = solid.binary().file_entries();
    assert_eq!(entries.len(), 2);
    assert_eq!(entries[0].path, "build/bof");
    assert_eq!(entries[0].target_path, "/home/simple-bof/bof");
    assert!(entries[0].public);
    assert_eq!(entries[0].permissions, FilePermissions::Executable);
    assert_eq!(entries[1].path, "flag");
    assert_eq!(entries[1].target_path, "/home/simple-bof/flag");
    assert!(!entries[1].public);
    assert_eq!(entries[1].permissions, FilePermissions::ReadOnly);
}

#[test]
fn solidify_explicit_target_and_permissions() {
    let mut e = entry("flag", None, Some("/opt/flag"));
    e.permissions = Some(FilePermissions::Custom(0o400));
    let m = manifest(Some("/srv"), vec![], vec![e]);
    let solid = m.solidify().unwrap();
    assert_eq!(solid.work_dir, "/srv");
    let entries = solid.binary().file_entries();
    assert_eq!(entries[0].target_path, "/opt/flag");
    assert_eq!(entries[0].permissions, FilePermissions::Custom(0o400));
}

#[test]
fn solidify_rejects_relative_work_dir() {
    let m = manifest(Some("home/x"), vec![entry("bof", None, None)], vec![]);
    assert!(matches!(m.solidify(), Err(SomaError::InvalidManifest)));
}

#[test]
fn solidify_rejects_relative_target_anywhere() {
    // first entry bad
    let m = manifest(None, vec![entry("bof", None, Some("rel/target"))], vec![]);
    assert!(matches!(m.solidify(), Err(SomaError::InvalidManifest)));
    // bad entry after a good one, in the read-only set
    let m = manifest(
        None,
        vec![entry("bof", None, None)],
        vec![entry("flag", None, None), entry("notes", None, Some("docs/notes"))],
    );
    assert!(matches!(m.solidify(), Err(SomaError::InvalidManifest)));
}

#[test]
fn solidify_rejects_entry_without_base_name() {
    let m = manifest(None, vec![entry("build/..", None, None)], vec![]);
    assert!(matches!(m.solidify(), Err(SomaError::FileNameNotFound)));
}

#[test]
fn public_files_filters_and_keeps_order() {
    let m = manifest(
        None,
        vec![entry("bof", Some(true), None), entry("libc.so", None, None)],
        vec![entry("flag", Some(false), None), entry("readme", Some(true), None)],
    );
    let public = m.public_files();
    assert_eq!(public, vec![String::from("bof"), String::from("readme")]);
}
