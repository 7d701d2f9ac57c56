use ovejas::drift::document_hash;
use ovejas::project::{find_project_root, is_project_root};
use ovejas::statefile::{environment_of_state_file, state_file_name, state_hashes_from_files};

#[test]
fn a_directory_with_the_marker_is_the_root() {
    let files = vec![String::from("main.py"), String::from("pyproject.toml")];
    assert!(is_project_root(&files));
    let bare = vec![String::from("main.py")];
    assert!(!is_project_root(&bare));
    assert!(!is_project_root(&Vec::new()));
}

#[test]
fn the_nearest_marked_directory_wins() {
    let dirs = vec![
        (String::from("/home/op/app/src"), vec![String::from("lib.py")]),
        (
            String::from("/home/op/app"),
            vec![String::from("pyproject.toml"), String::from("main.py")],
        ),
        (String::from("/home/op"), vec![String::from("pyproject.toml")]),
    ];
    assert_eq!(find_project_root(&dirs), Some(String::from("/home/op/app")));

    let unmarked = vec![(String::from("/home/op"), vec![String::from("notes.txt")])];
    assert!(find_project_root(&unmarked).is_none());
}

#[test]
fn state_file_names_are_keyed_by_environment() {
    assert_eq!(state_file_name("prod"), "state.prod.json");
    assert_eq!(
        environment_of_state_file("state.prod.json"),
        Some(String::from("prod"))
    );
}

#[test]
fn other_files_in_the_state_directory_name_nothing() {
    assert!(environment_of_state_file("config.yaml").is_none());
    assert!(environment_of_state_file("state..json").is_none());
    assert!(environment_of_state_file("state.pr0d.json").is_none());
    assert!(environment_of_state_file("state.prod.json.bak").is_none());
}

#[test]
fn the_hash_report_covers_exactly_the_state_files() {
    let files = vec![
        (String::from("state.prod.json"), String::from("{\"a\":1}")),
        (String::from("config.yaml"), String::from("port: 1")),
        (String::from("state.dev.json"), String::from("{}")),
    ];
    let report = state_hashes_from_files(&files);
    assert_eq!(report.len(), 2);
    assert_eq!(report[0].0, "prod");
    assert_eq!(report[0].1, document_hash("{\"a\":1}"));
    assert_eq!(report[1].0, "dev");
    assert_eq!(report[1].1, document_hash("{}"));
}
