use soma::backend::Backend;
use soma::repository::{validate_problem_list, ProblemIndexEntry, RepositoryManager};
use soma::NameString;
use soma::SomaError;

const SIMPLE_BOF_GIT: &str = "https://github.com/PLUS-POSTECH/simple-bof.git";

fn prob(name: &str, path: &str) -> ProblemIndexEntry {
    ProblemIndexEntry::new(NameString::try_from(name).unwrap(), String::from(path))
}

fn manager_with(repos: &[(&str, &[(&str, &str)])]) -> RepositoryManager {
    let mut mgr = RepositoryManager::new(String::from("/data/repositories"));
    for (repo, probs) in repos {
        let prob_list: Vec<ProblemIndexEntry> =
            probs.iter().map(|(n, p)| prob(n, p)).collect();
        mgr.add_repo(repo, Backend::GitBackend(String::from(SIMPLE_BOF_GIT)), prob_list)
            .unwrap();
    }
    mgr
}

#[test]
fn test_prob_search() {
    let mut mgr = manager_with(&[
        ("bof1", &[("simple-bof", "./")]),
        ("bof2", &[("simple-bof", "./")]),
    ]);

    assert!(matches!(
        mgr.search_prob("simple-bof"),
        Err(SomaError::ProblemQueryAmbiguous)
    ));
    assert!(mgr.remove_repo("bof1").is_ok());

    assert!(mgr.search_prob("simple-bof").is_ok());
    assert!(mgr.remove_repo("bof2").is_ok());

    assert!(matches!(
        mgr.search_prob("simple-bof"),
        Err(SomaError::ProblemNotFound)
    ));
}

#[test]
fn qualified_search_beats_ambiguity() {
    let mgr = manager_with(&[
        ("bof1", &[("simple-bof", "./")]),
        ("bof2", &[("simple-bof", "./")]),
    ]);
    let p = mgr.search_prob("bof1.simple-bof").unwrap();
    assert_eq!(p.repo_name().as_str(), "bof1");
    assert_eq!(p.prob_name().as_str(), "simple-bof");
    assert_eq!(p.path(), "/data/repositories/bof1/./");
}

#[test]
fn add_repo_duplicate_fails_and_leaves_index_alone() {
    let mut mgr = manager_with(&[("simple-bof", &[("simple-bof", "./")])]);
    assert!(mgr.repo_exists("simple-bof"));
    let before: Vec<String> = mgr
        .list_repo()
        .iter()
        .map(|r| String::from(r.name().as_str()))
        .collect();
    assert!(matches!(
        mgr.add_repo(
            "simple-bof",
            Backend::LocalBackend(String::from("/tmp/other")),
            vec![prob("other", "./")],
        ),
        Err(SomaError::DuplicateRepository)
    ));
    let after: Vec<String> = mgr
        .list_repo()
        .iter()
        .map(|r| String::from(r.name().as_str()))
        .collect();
    assert_eq!(before, after);
    let repo = mgr.get_repo("simple-bof").unwrap();
    assert!(matches!(repo.backend(), Backend::GitBackend(_)));
}

#[test]
fn add_repo_rejects_invalid_name() {
    let mut mgr = RepositoryManager::new(String::from("/data/repositories"));
    assert!(matches!(
        mgr.add_repo("Bad.Name", Backend::LocalBackend(String::from("/tmp/x")), vec![]),
        Err(SomaError::InvalidName)
    ));
    assert!(!mgr.dirty());
}

#[test]
fn remove_repo_not_found() {
    let mut mgr = RepositoryManager::new(String::from("/data/repositories"));
    assert!(matches!(
        mgr.remove_repo("missing"),
        Err(SomaError::RepositoryNotFound)
    ));
}

#[test]
fn get_repo_hands_out_paths_and_problems() {
    let mgr = manager_with(&[("bata", &[("xkcd", "xkcd"), ("r0pbaby", "r0pbaby")])]);
    let repo = mgr.get_repo("bata").unwrap();
    assert_eq!(repo.name().as_str(), "bata");
    assert_eq!(repo.path(), "/data/repositories/bata");
    let names: Vec<String> = repo
        .prob_names()
        .iter()
        .map(|n| String::from(n.as_str()))
        .collect();
    assert_eq!(names, vec![String::from("xkcd"), String::from("r0pbaby")]);
    let probs = mgr.list_prob();
    assert_eq!(probs.len(), 2);
    assert_eq!(probs[0].fully_qualified_name(), "bata.xkcd");
    assert_eq!(probs[1].path(), "/data/repositories/bata/r0pbaby");
}

#[test]
fn listing_is_in_ascending_name_order() {
    let mgr = manager_with(&[
        ("zeta", &[("z", "./")]),
        ("alpha", &[("a", "./")]),
        ("mid", &[("m", "./")]),
    ]);
    let names: Vec<String> = mgr
        .list_repo()
        .iter()
        .map(|r| String::from(r.name().as_str()))
        .collect();
    assert_eq!(
        names,
        vec![String::from("alpha"), String::from("mid"), String::from("zeta")]
    );
    let fqns: Vec<String> = mgr
        .list_prob()
        .iter()
        .map(|p| p.fully_qualified_name())
        .collect();
    assert_eq!(
        fqns,
        vec![
            String::from("alpha.a"),
            String::from("mid.m"),
            String::from("zeta.z"),
        ]
    );
}

#[test]
fn dirty_tracks_mutation() {
    let mut mgr = RepositoryManager::new(String::from("/data"));
    assert!(!mgr.dirty());
    mgr.add_repo(
        "simple-bof",
        Backend::GitBackend(String::from(SIMPLE_BOF_GIT)),
        vec![prob("simple-bof", "./")],
    )
    .unwrap();
    assert!(mgr.dirty());
}

#[test]
fn problem_list_rejects_duplicates() {
    let distinct = vec![String::from("/repo/a"), String::from("/repo/b")];
    assert!(validate_problem_list(&distinct).is_ok());
    let duplicated = vec![
        String::from("/repo/a"),
        String::from("/repo/b"),
        String::from("/repo/a"),
    ];
    assert!(matches!(
        validate_problem_list(&duplicated),
        Err(SomaError::InvalidSomaList)
    ));
    assert!(validate_problem_list(&vec![]).is_ok());
}
