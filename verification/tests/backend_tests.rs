use soma::backend::{location_to_backend, Backend};

const SIMPLE_BOF_GIT: &str = "https://github.com/PLUS-POSTECH/simple-bof.git";
const SIMPLE_BOF_REPO_NAME: &str = "simple-bof";
const BATA_LIST_GIT: &str = "https://github.com/PLUS-POSTECH/soma-bata-list.git";
const BATA_LIST_REPO_NAME: &str = "soma-bata-list";

fn test_parse_git(location: &str, expected_repo_name: &str) {
    let (repo_name, backend) =
        location_to_backend(location, None).expect("failed to parse the location");
    assert_eq!(repo_name, expected_repo_name);
    assert!(backend.description().starts_with("Git"));
}

fn test_parse_local(location: &str, canonical: &str, expected_repo_name: &str) {
    let canonical = String::from(canonical);
    let (repo_name, backend) =
        location_to_backend(location, Some(&canonical)).expect("failed to parse the location");
    assert_eq!(repo_name, expected_repo_name);
    assert!(backend.description().starts_with("Local"));
}

fn test_parse_fail(location: &str) {
    assert!(location_to_backend(location, None).is_err());
}

#[test]
fn location_to_backend_success() {
    test_parse_git(SIMPLE_BOF_GIT, SIMPLE_BOF_REPO_NAME);
    test_parse_git(BATA_LIST_GIT, BATA_LIST_REPO_NAME);

    test_parse_local("tests/common", "/work/tests/common", "common");
    // a trailing separator still names the directory
    test_parse_local("tests/common/", "/work/tests/common", "common");
}

#[test]
fn location_to_backend_fail() {
    test_parse_fail("not_existing");
}

#[test]
fn git_name_is_lowercased() {
    let (repo_name, _) =
        location_to_backend("https://github.com/PLUS-POSTECH/Simple-BOF.git", None).unwrap();
    assert_eq!(repo_name, "simple-bof");
}

#[test]
fn backend_descriptions() {
    assert_eq!(
        Backend::GitBackend(String::from(SIMPLE_BOF_GIT)).description(),
        format!("Git: {}", SIMPLE_BOF_GIT)
    );
    assert_eq!(
        Backend::LocalBackend(String::from("/srv/repo")).description(),
        "Local: /srv/repo"
    );
}
