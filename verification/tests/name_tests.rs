use soma::NameString;
use soma::SomaError;

#[test]
fn test_name_eq() {
    assert_eq!("asdf", &NameString::try_from("asdf").unwrap());
    assert_eq!(&NameString::try_from("asdf").unwrap(), "asdf");
    assert_eq!(String::from("asdf"), NameString::try_from("asdf").unwrap());
    assert_eq!(NameString::try_from("asdf").unwrap(), String::from("asdf"));
    assert_ne!("qwer", &NameString::try_from("asdf").unwrap());
    assert_ne!(&NameString::try_from("qwer").unwrap(), "asdf");
    assert_ne!(String::from("qwer"), NameString::try_from("asdf").unwrap());
    assert_ne!(NameString::try_from("qwer").unwrap(), String::from("asdf"));
}

#[test]
fn name_accepts_separator_runs() {
    for good in [
        "asdf0",
        "asdf0_qwer",
        "asdf0__qwer",
        "asdf0-qwer",
        "asdf0--qwer",
        "asdf0---qwer",
    ] {
        let name = NameString::try_from(good).unwrap();
        assert_eq!(&name, good);
    }
}

#[test]
fn name_rejects_bad_shapes() {
    for bad in [
        "",
        "ASDF",
        "AS@DF",
        "asdf0.qwer",
        "asdf..qwer",
        "asdf___qwer",
        "asdf.",
        "asdf_",
        "asdf-",
        ".asdf",
        "_asdf",
        "-asdf",
        "a_-b",
        "a-_b",
    ] {
        assert!(matches!(NameString::try_from(bad), Err(SomaError::InvalidName)));
    }
}

#[test]
fn name_try_from_string_keeps_value() {
    let name = NameString::try_from_string(String::from("simple-bof")).unwrap();
    assert_eq!(name.as_str(), "simple-bof");
    assert!(matches!(
        NameString::try_from_string(String::from("Simple-BOF")),
        Err(SomaError::InvalidName)
    ));
}

#[test]
fn error_messages_are_stable() {
    assert_eq!(
        SomaError::DuplicateRepository.message(),
        "A repository with the same name already exists"
    );
    assert_eq!(
        SomaError::ProblemNotFound.message(),
        "The specified problem is not found"
    );
}
