use soma::backend::Backend;
use soma::docker::{
    classify_labels, container_exists, container_from_prob_exists, container_from_prob_running,
    containers_from_prob, docker_labels, image_exists, image_from_prob_exists,
    image_from_repo_exists, SomaContainer, SomaFilterBuilder, SomaImage, VersionStatus,
};
use soma::manifest::{BinaryConfig, FileEntry, Manifest};
use soma::ops::{
    clean_precheck, copy_instructions, fetch_plan, host_port_string, remove_precheck,
    run_precheck, stop_plan, update_precheck, CONTAINER_PORT,
};
use soma::problem::Problem;
use soma::repository::{ProblemIndexEntry, RepositoryManager};
use soma::NameString;
use soma::SomaError;
use soma::VERSION;

fn problem() -> Problem {
    Problem::new(
        NameString::try_from("simple-bof").unwrap(),
        NameString::try_from("simple-bof").unwrap(),
        String::from("/data/repositories/simple-bof/./"),
    )
}

fn container(id: &str, state: &str) -> SomaContainer {
    SomaContainer::new(
        String::from("simple-bof"),
        String::from("simple-bof"),
        String::from(id),
        String::from(state),
        VersionStatus::Normal,
    )
}

fn image(repo: &str, prob: &str, tag: Option<&str>) -> SomaImage {
    SomaImage::new(
        String::from(repo),
        String::from(prob),
        tag.map(|t| vec![String::from(t)]),
        VersionStatus::Normal,
    )
}

#[test]
fn test_run_stop1() {
    // The state machine over one observed runtime, driven through the model:
    // run, a second refused run, stop, clean.
    let prob = problem();

    // no container: run is allowed, stop is refused
    let none: Vec<SomaContainer> = vec![];
    assert!(run_precheck(&none, &prob).is_ok());
    assert!(matches!(
        stop_plan(&none, &prob),
        Err(SomaError::ProblemNotRunning)
    ));

    // one running container: a second run is refused
    let running = vec![container("c1", "running")];
    assert!(matches!(
        run_precheck(&running, &prob),
        Err(SomaError::ProblemAlreadyRunning)
    ));

    // stop issues a stop for the running container and removes it
    let plan = stop_plan(&running, &prob).unwrap();
    assert_eq!(plan.to_stop, vec![String::from("c1")]);
    assert_eq!(plan.to_remove, vec![String::from("c1")]);

    // while any container remains, clean is refused
    assert!(matches!(
        clean_precheck(&running, &prob),
        Err(SomaError::RepositoryInUse)
    ));
    assert!(clean_precheck(&none, &prob).is_ok());
}

#[test]
fn stop_handles_dead_containers() {
    let prob = problem();
    let cs = vec![
        container("dead", "exited"),
        container("live", "running"),
        container("frozen", "paused"),
        container("loop", "restarting"),
    ];
    let plan = stop_plan(&cs, &prob).unwrap();
    assert_eq!(
        plan.to_stop,
        vec![String::from("live"), String::from("frozen"), String::from("loop")]
    );
    assert_eq!(
        plan.to_remove,
        vec![
            String::from("dead"),
            String::from("live"),
            String::from("frozen"),
            String::from("loop"),
        ]
    );
}

#[test]
fn stopped_container_still_blocks_clean() {
    let prob = problem();
    let cs = vec![container("dead", "exited")];
    assert!(run_precheck(&cs, &prob).is_ok());
    assert!(matches!(
        clean_precheck(&cs, &prob),
        Err(SomaError::RepositoryInUse)
    ));
}

#[test]
fn predicates_filter_by_identity() {
    let prob = problem();
    let other = SomaContainer::new(
        String::from("other-repo"),
        String::from("other-prob"),
        String::from("x"),
        String::from("running"),
        VersionStatus::VersionMismatch,
    );
    let cs = vec![other, container("c9", "exited")];
    assert!(container_from_prob_exists(&cs, &prob));
    assert!(!container_from_prob_running(&cs, &prob));
    assert!(container_exists(&cs, "c9"));
    assert!(!container_exists(&cs, "c1"));
    let own = containers_from_prob(cs, &prob);
    assert_eq!(own.len(), 1);
    assert_eq!(own[0].container_id(), "c9");
}

#[test]
fn image_predicates() {
    let prob = problem();
    let images = vec![
        image("simple-bof", "simple-bof", Some("soma.user/simple-bof.simple-bof:latest")),
        image("bata", "xkcd", None),
    ];
    assert!(image_exists(&images, "soma.user/simple-bof.simple-bof"));
    assert!(!image_exists(&images, "soma.user/simple-bof"));
    assert!(image_from_repo_exists(&images, "bata"));
    assert!(!image_from_repo_exists(&images, "missing"));
    assert!(image_from_prob_exists(&images, &prob));
    assert!(matches!(
        remove_precheck(&images, "simple-bof"),
        Err(SomaError::RepositoryInUse)
    ));
    assert!(remove_precheck(&images, "missing").is_ok());
}

#[test]
fn labels_and_classification() {
    let prob = problem();
    let labels = docker_labels("user", &prob);
    assert_eq!(labels.len(), 4);
    assert_eq!(labels[0], (String::from("soma.version"), String::from(VERSION)));
    assert_eq!(labels[1], (String::from("soma.username"), String::from("user")));
    assert_eq!(labels[2], (String::from("soma.repository"), String::from("simple-bof")));
    assert_eq!(labels[3], (String::from("soma.problem"), String::from("simple-bof")));

    let (repo, prob_name, status) = classify_labels(&labels, VERSION).unwrap();
    assert_eq!(repo, "simple-bof");
    assert_eq!(prob_name, "simple-bof");
    assert_eq!(status, VersionStatus::Normal);

    let (_, _, status) = classify_labels(&labels, "some-other-version").unwrap();
    assert_eq!(status, VersionStatus::VersionMismatch);

    let unlabeled = vec![(String::from("soma.repository"), String::from("simple-bof"))];
    assert!(classify_labels(&unlabeled, VERSION).is_none());

    let no_version = vec![
        (String::from("soma.repository"), String::from("simple-bof")),
        (String::from("soma.problem"), String::from("simple-bof")),
    ];
    let (_, _, status) = classify_labels(&no_version, VERSION).unwrap();
    assert_eq!(status, VersionStatus::NoVersionFound);
}

#[test]
fn filter_builder_terms() {
    let prob = problem();
    let filter = SomaFilterBuilder::new().append_user("user").append_prob(&prob).build();
    assert_eq!(
        filter,
        vec![
            String::from("soma.username=user"),
            String::from("soma.repository=simple-bof"),
            String::from("soma.problem=simple-bof"),
        ]
    );
}

#[test]
fn build_and_fetch_plans() {
    let manifest = Manifest::new(
        NameString::try_from("simple-bof").unwrap(),
        None,
        BinaryConfig::new(
            String::from("ubuntu:18.04"),
            String::from("./bof"),
            vec![FileEntry::new(String::from("build/bof"), Some(true), None, None)],
            vec![FileEntry::new(String::from("flag"), None, None, None)],
        ),
    );
    let solid = manifest.solidify().unwrap();
    let copies = copy_instructions("/problems/simple-bof", "/ctx/image-root", solid.binary());
    assert_eq!(copies.len(), 2);
    assert_eq!(copies[0].source, "/problems/simple-bof/build/bof");
    assert_eq!(copies[0].destination, "/ctx/image-root/home/simple-bof/bof");
    assert_eq!(copies[1].source, "/problems/simple-bof/flag");
    assert_eq!(copies[1].destination, "/ctx/image-root/home/simple-bof/flag");

    let fetches = fetch_plan(
        "/problems/simple-bof",
        "/home/operator",
        &manifest.public_files(),
    )
    .unwrap();
    assert_eq!(fetches.len(), 1);
    assert_eq!(fetches[0].source, "/problems/simple-bof/build/bof");
    assert_eq!(fetches[0].destination, "/home/operator/bof");

    let bad = fetch_plan("/p", "/c", &vec![String::from("..")]);
    assert!(matches!(bad, Err(SomaError::FileNameNotFound)));
}

#[test]
fn end_to_end_over_the_model() {
    // Registering a version-controlled repository named simple-bof with one
    // problem, searching it, building, running on port 31337, stopping and
    // cleaning — every decision the library makes along the way.
    let mut mgr = RepositoryManager::new(String::from("/data/repositories"));
    mgr.add_repo(
        "simple-bof",
        Backend::GitBackend(String::from("https://github.com/PLUS-POSTECH/simple-bof.git")),
        vec![ProblemIndexEntry::new(
            NameString::try_from("simple-bof").unwrap(),
            String::from("./"),
        )],
    )
    .unwrap();

    let prob = mgr.search_prob("simple-bof").unwrap();
    assert_eq!(prob.repo_name().as_str(), "simple-bof");
    assert_eq!(prob.prob_name().as_str(), "simple-bof");

    let image_name = prob.docker_image_name("user");
    assert_eq!(image_name, "soma.user/simple-bof.simple-bof");

    let labels = docker_labels("user", &prob);
    assert_eq!(labels[0].1, VERSION);
    assert_eq!(labels[2].1, "simple-bof");
    assert_eq!(labels[3].1, "simple-bof");

    assert_eq!(CONTAINER_PORT, "1337/tcp");
    assert_eq!(host_port_string(31337), "31337");

    // the runtime reports a running labelled container after the start
    let cs = vec![container("abc123", "running")];
    assert!(matches!(
        run_precheck(&cs, &prob),
        Err(SomaError::ProblemAlreadyRunning)
    ));

    let plan = stop_plan(&cs, &prob).unwrap();
    assert_eq!(plan.to_remove, vec![String::from("abc123")]);

    // after the removal the image can be cleaned
    let no_containers: Vec<SomaContainer> = vec![];
    assert!(clean_precheck(&no_containers, &prob).is_ok());
}

#[test]
fn test_update() {
    // The update rule over one observed state: a problem dropped by the
    // re-scan blocks the update while its image remains.
    let a = NameString::try_from("a").unwrap();
    let b = NameString::try_from("b").unwrap();
    let repo = NameString::try_from("test").unwrap();
    let old_names = vec![a.clone(), b.clone()];
    let entry = |name: &str| {
        ProblemIndexEntry::new(NameString::try_from(name).unwrap(), String::from(name))
    };

    // image "test.b" should be removed before updating to a list without b
    let images = vec![image("test", "a", None), image("test", "b", None)];
    let shrunk = vec![entry("a")];
    assert!(matches!(
        update_precheck(&old_names, &shrunk, &images, &repo),
        Err(SomaError::UnsupportedUpdate)
    ));

    // once the image is cleaned the update goes through
    let images = vec![image("test", "a", None)];
    assert!(update_precheck(&old_names, &shrunk, &images, &repo).is_ok());

    // update should not fail when there is no removed problem
    let grown = vec![entry("a"), entry("b"), entry("c")];
    let images = vec![image("test", "a", None), image("test", "b", None)];
    assert!(update_precheck(&old_names, &grown, &images, &repo).is_ok());
}

#[test]
fn set_prob_list_rescans_cache() {
    let mut mgr = RepositoryManager::new(String::from("/data/repositories"));
    mgr.add_repo(
        "test",
        Backend::LocalBackend(String::from("/srv/test")),
        vec![ProblemIndexEntry::new(
            NameString::try_from("a").unwrap(),
            String::from("a"),
        )],
    )
    .unwrap();
    let fresh = vec![
        ProblemIndexEntry::new(NameString::try_from("a").unwrap(), String::from("a")),
        ProblemIndexEntry::new(NameString::try_from("c").unwrap(), String::from("c")),
    ];
    mgr.set_prob_list("test", fresh).unwrap();
    let names: Vec<String> = mgr
        .get_repo("test")
        .unwrap()
        .prob_names()
        .iter()
        .map(|n| String::from(n.as_str()))
        .collect();
    assert_eq!(names, vec![String::from("a"), String::from("c")]);
    assert!(matches!(
        mgr.set_prob_list("missing", vec![]),
        Err(SomaError::RepositoryNotFound)
    ));
}
