use jog::error::Error;
use jog::jogfile::{find, parse, parse_task, read, validate, Task};
use jog::text::split_lines;

fn task(name: &str, params: &[&str], rest: bool, body: &str, line_no: usize) -> Task {
    Task {
        name: name.to_string(),
        params: params.iter().map(|p| p.to_string()).collect(),
        rest,
        body: body.to_string(),
        line_no,
    }
}

#[test]
fn a_header_with_one_indented_line() {
    let tasks = parse("jogfile", "build\n  echo hi").unwrap();
    assert_eq!(tasks.len(), 1);
    assert_eq!(tasks[0].name, "build");
    assert_eq!(tasks[0].params, Vec::<String>::new());
    assert!(!tasks[0].rest);
    assert_eq!(tasks[0].body, "  echo hi\n");
    assert_eq!(tasks[0].line_no, 1);
}

#[test]
fn an_empty_text_declares_nothing() {
    assert_eq!(parse("jogfile", ""), Ok(vec![]));
    assert_eq!(parse("jogfile", "\n\n# only a comment\n   \n"), Ok(vec![]));
}

#[test]
fn parameters_and_rest_marker() {
    let tasks = parse("jogfile", "deploy env region ...\n  ./deploy \"$env\" \"$region\" \"$@\"\n")
        .unwrap();
    assert_eq!(
        tasks,
        vec![task(
            "deploy",
            &["env", "region"],
            true,
            "  ./deploy \"$env\" \"$region\" \"$@\"\n",
            1
        )]
    );
}

#[test]
fn the_rest_marker_counts_only_at_the_end() {
    let tasks = parse("jogfile", "a ... b\nc ...\n... x\nd ... ...\n...\n").unwrap();
    assert_eq!(
        tasks,
        vec![
            task("a", &["...", "b"], false, "", 1),
            task("c", &[], true, "", 2),
            task("...", &["x"], false, "", 3),
            task("d", &["..."], true, "", 4),
            task("...", &[], false, "", 5),
        ]
    );
}

#[test]
fn bodies_keep_blank_lines_and_indentation() {
    let text = "# tasks\n\nbuild\n  cargo build\n\n\tcargo test\n\n# next\nclean\n  rm -rf target\n";
    let tasks = parse("jogfile", text).unwrap();
    assert_eq!(
        tasks,
        vec![
            task("build", &[], false, "  cargo build\n\n\tcargo test\n\n", 3),
            task("clean", &[], false, "  rm -rf target\n", 9),
        ]
    );
}

#[test]
fn a_task_without_a_body() {
    let tasks = parse("jogfile", "first\nsecond arg\n  echo\n").unwrap();
    assert_eq!(
        tasks,
        vec![task("first", &[], false, "", 1), task("second", &["arg"], false, "  echo\n", 2)]
    );
}

#[test]
fn line_endings_of_the_body_become_line_feeds() {
    let tasks = parse("jogfile", "t\r\n  a\r\n  b").unwrap();
    assert_eq!(tasks, vec![task("t", &[], false, "  a\n  b\n", 1)]);
}

#[test]
fn an_indented_header_is_malformed() {
    assert_eq!(
        parse("jogfile", "  echo hi\n"),
        Err(Error::Parse { path: "jogfile".to_string(), line: 1 })
    );
    assert_eq!(
        parse("dir/jogfile", "# c\n\n\tbuild\n  echo\n"),
        Err(Error::Parse { path: "dir/jogfile".to_string(), line: 3 })
    );
}

#[test]
fn an_indented_line_after_a_comment_that_ends_a_body_is_malformed() {
    assert_eq!(
        parse("jogfile", "build\n  echo\n# note\n  echo again\n"),
        Err(Error::Parse { path: "jogfile".to_string(), line: 4 })
    );
}

#[test]
fn a_comment_sign_after_whitespace_is_no_comment() {
    assert_eq!(
        parse("jogfile", " # indented\n"),
        Err(Error::Parse { path: "jogfile".to_string(), line: 1 })
    );
}

#[test]
fn parse_task_reads_one_task_at_a_time() {
    let lines = split_lines("\n# c\na x\n  one\n\nb\n  two\n");
    let (first, next) = parse_task("jogfile", &lines, 0).unwrap().unwrap();
    assert_eq!(first, task("a", &["x"], false, "  one\n\n", 3));
    assert_eq!(next, 5);
    let (second, next) = parse_task("jogfile", &lines, next).unwrap().unwrap();
    assert_eq!(second, task("b", &[], false, "  two\n", 6));
    assert_eq!(next, 7);
    assert_eq!(parse_task("jogfile", &lines, next), Ok(None));
}

#[test]
fn the_same_arity_twice_is_redundant() {
    let err = read("jogfile", "greet name\n  echo 1\ngreet name\n  echo 2\n").unwrap_err();
    assert_eq!(
        err,
        Error::Validation {
            path: "jogfile".to_string(),
            earlier_line: 1,
            later_line: 3,
            name: "greet".to_string(),
        }
    );
    assert_eq!(
        err.message(),
        "jogfile:3: redundant definition for 'greet', already covered by jogfile:1"
    );
}

#[test]
fn a_rest_parameter_before_a_longer_definition_is_redundant() {
    let err = read("jogfile", "greet ...\n  echo\ngreet name\n  echo\n").unwrap_err();
    assert_eq!(
        err,
        Error::Validation {
            path: "jogfile".to_string(),
            earlier_line: 1,
            later_line: 3,
            name: "greet".to_string(),
        }
    );
}

#[test]
fn a_rest_parameter_after_a_fixed_definition_is_fine() {
    let tasks = read("jogfile", "greet name\n  echo\ngreet ...\n  echo\n").unwrap();
    assert_eq!(
        tasks,
        vec![task("greet", &["name"], false, "  echo\n", 1), task("greet", &[], true, "  echo\n", 3)]
    );
}

#[test]
fn redundancy_by_cases() {
    let fixed1 = task("t", &["a"], false, "", 1);
    let fixed2 = task("t", &["a", "b"], false, "", 2);
    let rest1 = task("t", &["a"], true, "", 3);
    let rest2 = task("t", &["a", "b"], true, "", 4);
    let other = task("u", &["a"], false, "", 5);
    assert!(validate("f", &[fixed1.clone(), fixed2.clone()]).is_ok());
    assert!(validate("f", &[fixed1.clone(), other.clone()]).is_ok());
    assert!(validate("f", &[fixed1.clone(), rest1.clone()]).is_ok());
    assert!(validate("f", &[fixed2.clone(), rest1.clone()]).is_ok());
    assert!(validate("f", &[rest2.clone(), rest1.clone()]).is_ok());
    assert!(validate("f", &[rest2.clone(), fixed1.clone()]).is_ok());
    assert!(validate("f", &[rest1.clone(), rest2.clone()]).is_err());
    assert!(validate("f", &[rest1.clone(), fixed2.clone()]).is_err());
    assert!(validate("f", &[rest1.clone(), fixed1.clone()]).is_err());
    assert!(validate("f", &[rest1.clone(), rest1.clone()]).is_err());
    assert!(validate("f", &[]).is_ok());
    assert!(validate("f", &[fixed1]).is_ok());
}

#[test]
fn the_first_covered_definition_is_reported() {
    let tasks = [
        task("a", &[], false, "", 1),
        task("b", &[], true, "", 2),
        task("b", &["x"], false, "", 3),
        task("a", &[], false, "", 4),
        task("b", &["y"], false, "", 5),
    ];
    assert_eq!(
        validate("f", &tasks),
        Err(Error::Validation {
            path: "f".to_string(),
            earlier_line: 2,
            later_line: 3,
            name: "b".to_string(),
        })
    );
    let tasks = [
        task("a", &["p"], false, "", 1),
        task("a", &[], true, "", 2),
        task("a", &["q"], false, "", 3),
    ];
    assert_eq!(
        validate("f", &tasks),
        Err(Error::Validation {
            path: "f".to_string(),
            earlier_line: 1,
            later_line: 3,
            name: "a".to_string(),
        })
    );
}

#[test]
fn read_reports_a_malformed_header_before_anything_else() {
    assert_eq!(
        read("jogfile", "a\na\n"),
        Err(Error::Validation {
            path: "jogfile".to_string(),
            earlier_line: 1,
            later_line: 2,
            name: "a".to_string(),
        })
    );
    assert_eq!(
        read("jogfile", "a\na\n# c\n  x\n"),
        Err(Error::Parse { path: "jogfile".to_string(), line: 4 })
    );
}

#[test]
fn the_directories_with_a_file_nearest_first() {
    assert_eq!(find(&[true]), Ok(vec![0]));
    assert_eq!(find(&[false, true, false, true]), Ok(vec![1, 3]));
    assert_eq!(find(&[true, true, true]), Ok(vec![0, 1, 2]));
}

#[test]
fn no_file_anywhere() {
    assert_eq!(find(&[]), Err(Error::Discovery));
    assert_eq!(find(&[false, false, false]), Err(Error::Discovery));
    assert_eq!(Error::Discovery.message(), "jogfile not found");
}
