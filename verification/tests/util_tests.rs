use soma::path::{file_name, join_path, path_is_absolute, strip_root};
use soma::strutil::{str_ends_with, str_eq, str_starts_with, u64_to_decimal, u64_to_octal};
use soma::template::Templates;

#[test]
fn path_helpers() {
    assert!(path_is_absolute("/home/x"));
    assert!(!path_is_absolute("home/x"));
    assert!(!path_is_absolute(""));
    assert_eq!(join_path("/data", "repo"), "/data/repo");
    assert_eq!(strip_root("/home/x"), "home/x");
}

#[test]
fn file_name_extracts_base() {
    assert_eq!(file_name("build/bof"), Some(String::from("bof")));
    assert_eq!(file_name("bof"), Some(String::from("bof")));
    assert_eq!(file_name("a/b/c.txt"), Some(String::from("c.txt")));
    assert_eq!(file_name(""), None);
    // trailing separators and `.` components refer to the directory before
    assert_eq!(file_name("dir/"), Some(String::from("dir")));
    assert_eq!(file_name("dir//"), Some(String::from("dir")));
    assert_eq!(file_name("a/."), Some(String::from("a")));
    assert_eq!(file_name("a/./"), Some(String::from("a")));
    assert_eq!(file_name("a/.."), None);
    assert_eq!(file_name("a/../"), None);
    assert_eq!(file_name("."), None);
    assert_eq!(file_name("./"), None);
    assert_eq!(file_name("/"), None);
}

#[test]
fn string_helpers() {
    assert!(str_eq("abc", "abc"));
    assert!(!str_eq("abc", "abd"));
    assert!(str_starts_with("Git: url", "Git"));
    assert!(!str_starts_with("Git", "Git: "));
    assert!(str_ends_with("simple-bof.git", ".git"));
    assert!(!str_ends_with("simple-bof", ".git"));
}

#[test]
fn number_rendering() {
    assert_eq!(u64_to_decimal(0), "0");
    assert_eq!(u64_to_decimal(31337), "31337");
    assert_eq!(u64_to_octal(0), "0");
    assert_eq!(u64_to_octal(0o550), "550");
    assert_eq!(u64_to_octal(0o777), "777");
}

#[test]
fn binary_template_files() {
    let names = Templates::Binary.file_names();
    assert_eq!(
        names,
        vec![
            String::from("Dockerfile"),
            String::from(".soma/start.sh"),
            String::from(".soma/configure_permissions.sh"),
        ]
    );
}
