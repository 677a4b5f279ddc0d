use jog::error::Error;
use jog::locate::{locate, path_at, Level, FILE_NAME};

fn level(path: &str, text: Option<&str>) -> Level {
    Level { path: path.to_string(), text: text.map(String::from) }
}

#[test]
fn files_are_located_nearest_first() {
    let levels = [
        level("jogfile", None),
        level("../jogfile", Some("build\n  make\n")),
        level("../../jogfile", None),
        level("../../../jogfile", Some("test a\n  make test\nbuild\n  true\n")),
    ];
    let files = locate(&levels).unwrap();
    assert_eq!(files.len(), 2);
    assert_eq!(files[0].path, "../jogfile");
    assert_eq!(files[0].distance, 1);
    assert_eq!(files[0].tasks.len(), 1);
    assert_eq!(files[0].tasks[0].name, "build");
    assert_eq!(files[1].path, "../../../jogfile");
    assert_eq!(files[1].distance, 3);
    assert_eq!(files[1].tasks.len(), 2);
    assert_eq!(files[1].tasks[0].name, "test");
    assert_eq!(files[1].tasks[1].body, "  true\n");
}

#[test]
fn a_file_in_the_starting_directory() {
    let files = locate(&[level("jogfile", Some(""))]).unwrap();
    assert_eq!(files.len(), 1);
    assert_eq!(files[0].distance, 0);
    assert_eq!(files[0].tasks, vec![]);
}

#[test]
fn no_level_holds_a_file() {
    assert_eq!(locate(&[]), Err(Error::Discovery));
    assert_eq!(
        locate(&[level("jogfile", None), level("../jogfile", None)]),
        Err(Error::Discovery)
    );
}

#[test]
fn the_nearest_file_that_cannot_be_read_is_reported() {
    let levels = [
        level("jogfile", Some("fine\n")),
        level("../jogfile", Some("a x\na y\n")),
        level("../../jogfile", Some("  indented\n")),
    ];
    assert_eq!(
        locate(&levels),
        Err(Error::Validation {
            path: "../jogfile".to_string(),
            earlier_line: 1,
            later_line: 2,
            name: "a".to_string(),
        })
    );
    let levels = [level("jogfile", None), level("../jogfile", Some("\n\t#\n"))];
    assert_eq!(locate(&levels), Err(Error::Parse { path: "../jogfile".to_string(), line: 2 }));
}

#[test]
fn the_path_of_a_file_above() {
    assert_eq!(FILE_NAME, "jogfile");
    assert_eq!(path_at(0), "jogfile");
    assert_eq!(path_at(1), "../jogfile");
    assert_eq!(path_at(3), "../../../jogfile");
}
