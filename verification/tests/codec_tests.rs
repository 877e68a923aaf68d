use soma::backend::Backend;
use soma::codec::decode_index;
use soma::repository::{ProblemIndexEntry, RepositoryManager};
use soma::NameString;

fn prob(name: &str, path: &str) -> ProblemIndexEntry {
    ProblemIndexEntry::new(NameString::try_from(name).unwrap(), String::from(path))
}

fn sample_manager() -> RepositoryManager {
    let mut mgr = RepositoryManager::new(String::from("/data/repositories"));
    mgr.add_repo(
        "simple-bof",
        Backend::GitBackend(String::from("https://github.com/PLUS-POSTECH/simple-bof.git")),
        vec![prob("simple-bof", "./")],
    )
    .unwrap();
    mgr.add_repo(
        "bata",
        Backend::LocalBackend(String::from("/srv/bata")),
        vec![prob("xkcd", "xkcd"), prob("r0pbaby", "r0pbaby")],
    )
    .unwrap();
    mgr
}

#[test]
fn index_round_trip_keeps_every_record() {
    let mgr = sample_manager();
    let bytes = mgr.serialize_index();
    let decoded = decode_index(&bytes).expect("snapshot must decode");
    assert_eq!(decoded.len(), 2);

    // the index is kept in ascending name order: "bata" before "simple-bof"
    assert_eq!(decoded[0].0.as_str(), "bata");
    match &decoded[0].1.backend {
        Backend::LocalBackend(path) => assert_eq!(path, "/srv/bata"),
        Backend::GitBackend(_) => panic!("kind changed in the round trip"),
    }
    assert_eq!(decoded[0].1.prob_list.len(), 2);
    assert_eq!(decoded[0].1.prob_list[1].name.as_str(), "r0pbaby");

    assert_eq!(decoded[1].0.as_str(), "simple-bof");
    match &decoded[1].1.backend {
        Backend::GitBackend(url) => {
            assert_eq!(url, "https://github.com/PLUS-POSTECH/simple-bof.git")
        }
        Backend::LocalBackend(_) => panic!("kind changed in the round trip"),
    }
    assert_eq!(decoded[1].1.prob_list.len(), 1);
    assert_eq!(decoded[1].1.prob_list[0].name.as_str(), "simple-bof");
    assert_eq!(decoded[1].1.prob_list[0].path, "./");
}

#[test]
fn manager_round_trip_through_bytes() {
    let mgr = sample_manager();
    let bytes = mgr.serialize_index();
    let back = RepositoryManager::from_bytes(String::from("/data/repositories"), &bytes)
        .expect("snapshot must decode into a registry");
    assert!(!back.dirty());
    assert!(back.repo_exists("simple-bof"));
    assert!(back.repo_exists("bata"));
    let p = back.search_prob("xkcd").unwrap();
    assert_eq!(p.fully_qualified_name(), "bata.xkcd");
}

#[test]
fn empty_index_round_trip() {
    let mgr = RepositoryManager::new(String::from("/data"));
    let bytes = mgr.serialize_index();
    let decoded = decode_index(&bytes).unwrap();
    assert!(decoded.is_empty());
}

#[test]
fn decode_rejects_garbage() {
    assert!(decode_index(&vec![]).is_none());
    assert!(decode_index(&vec![1, 2, 3]).is_none());
    let mgr = sample_manager();
    let mut bytes = mgr.serialize_index();
    bytes.push(0);
    assert!(decode_index(&bytes).is_none(), "trailing bytes must be refused");
}
