use jog::error::Error;
use jog::jogfile::Task;
use jog::shell::{
    exit_code, parse_env_or_default, run, Invocation, DEFAULT_DEPTH, DEFAULT_MAX_DEPTH, DEPTH,
    MAX_DEPTH, SHELL,
};

fn strings(items: &[&str]) -> Vec<String> {
    items.iter().map(|s| s.to_string()).collect()
}

fn pair(name: &str, value: &str) -> (String, String) {
    (name.to_string(), value.to_string())
}

fn greet() -> Task {
    Task {
        name: "greet".to_string(),
        params: strings(&["greeting", "name"]),
        rest: true,
        body: "  echo \"$greeting, $name\" \"$@\"\n".to_string(),
        line_no: 7,
    }
}

#[test]
fn the_names_of_the_variables() {
    assert_eq!(SHELL, "SHELL");
    assert_eq!(DEPTH, "JOG_DEPTH");
    assert_eq!(MAX_DEPTH, "JOG_MAX_DEPTH");
    assert_eq!(DEFAULT_DEPTH, 0);
    assert_eq!(DEFAULT_MAX_DEPTH, 100);
    assert_eq!(jog::shell::FAILURE, 1);
}

#[test]
fn parameters_are_bound_and_the_rest_is_passed_on() {
    let call = greet()
        .run(
            "../jogfile",
            &strings(&["hello", "world", "x", "y z"]),
            0,
            100,
            Some("/bin/sh".to_string()),
        )
        .unwrap();
    assert_eq!(
        call,
        Invocation {
            shell: "/bin/sh".to_string(),
            env: vec![pair("greeting", "hello"), pair("name", "world"), pair("JOG_DEPTH", "1")],
            args: strings(&["-c", "  echo \"$greeting, $name\" \"$@\"\n", "../jogfile", "x", "y z"]),
        }
    );
}

#[test]
fn an_argument_is_bound_as_it_stands() {
    let task = Task {
        name: "say".to_string(),
        params: strings(&["what"]),
        rest: false,
        body: "  echo \"$what\"\n".to_string(),
        line_no: 1,
    };
    let arg = "  a b\t$HOME `id` \"q\" 'r' ; rm -rf * | & \\ \n\u{e9}";
    let call = task.run("jogfile", &strings(&[arg]), 3, 100, Some("/bin/zsh".to_string())).unwrap();
    assert_eq!(call.env, vec![pair("what", arg), pair("JOG_DEPTH", "4")]);
    assert_eq!(call.args, strings(&["-c", "  echo \"$what\"\n", "jogfile"]));
}

#[test]
fn a_parameter_named_twice_is_bound_twice_in_order() {
    let task = Task {
        name: "t".to_string(),
        params: strings(&["x", "x"]),
        rest: false,
        body: String::new(),
        line_no: 1,
    };
    let call = task.run("jogfile", &strings(&["1", "2"]), 0, 100, Some("sh".to_string())).unwrap();
    assert_eq!(call.env, vec![pair("x", "1"), pair("x", "2"), pair("JOG_DEPTH", "1")]);
}

#[test]
fn the_depth_may_reach_the_maximum_but_not_pass_it() {
    let task = greet();
    let args = strings(&["a", "b"]);
    let at_limit = task.run("jogfile", &args, 100, 100, Some("sh".to_string())).unwrap();
    assert_eq!(at_limit.env[2], pair("JOG_DEPTH", "101"));
    let err = task.run("jogfile", &args, 101, 100, Some("sh".to_string())).unwrap_err();
    assert_eq!(
        err,
        Error::RecursionLimit {
            path: "jogfile".to_string(),
            line: 7,
            name: "greet".to_string(),
            given: 2,
        }
    );
    assert_eq!(
        err.message(),
        "jogfile:7: maximum recursion depth exceeded running 'greet' with 2 arguments"
    );
}

#[test]
fn the_depth_is_checked_before_the_shell() {
    let err = greet().run("jogfile", &strings(&["a", "b", "c"]), 5, 4, None).unwrap_err();
    assert_eq!(
        err,
        Error::RecursionLimit {
            path: "jogfile".to_string(),
            line: 7,
            name: "greet".to_string(),
            given: 3,
        }
    );
}

#[test]
fn one_argument_is_in_the_singular() {
    let task = Task {
        name: "t".to_string(),
        params: strings(&["x"]),
        rest: false,
        body: String::new(),
        line_no: 12,
    };
    let err = task.run("a/jogfile", &strings(&["1"]), 1, 0, Some("sh".to_string())).unwrap_err();
    assert_eq!(
        err.message(),
        "a/jogfile:12: maximum recursion depth exceeded running 't' with 1 argument"
    );
}

#[test]
fn the_greatest_depth_is_handed_on_without_overflow() {
    let call = greet()
        .run("jogfile", &strings(&["a", "b"]), i32::MAX, i32::MAX, Some("sh".to_string()))
        .unwrap();
    assert_eq!(call.env[2], pair("JOG_DEPTH", "2147483648"));
    let call = greet()
        .run("jogfile", &strings(&["a", "b"]), -5, 100, Some("sh".to_string()))
        .unwrap();
    assert_eq!(call.env[2], pair("JOG_DEPTH", "-4"));
}

#[test]
fn without_a_shell_nothing_runs() {
    let err = greet().run("jogfile", &strings(&["a", "b"]), 0, 100, None).unwrap_err();
    assert_eq!(err, Error::Environment { variable: "SHELL".to_string() });
    assert_eq!(err.message(), "environment variable SHELL is not set or not usable");
    assert_eq!(
        run(&greet(), "jogfile", &strings(&["a", "b"]), 0, 100, None),
        Err(Error::Environment { variable: "SHELL".to_string() })
    );
}

#[test]
fn a_task_run_under_the_path_of_its_file() {
    let call = run(
        &greet(),
        "../jogfile",
        &strings(&["a", "b", "c"]),
        4,
        100,
        Some("/bin/sh".to_string()),
    )
    .unwrap();
    assert_eq!(
        call,
        Invocation {
            shell: "/bin/sh".to_string(),
            env: vec![pair("greeting", "a"), pair("name", "b"), pair("JOG_DEPTH", "5")],
            args: strings(&["-c", "  echo \"$greeting, $name\" \"$@\"\n", "../jogfile", "c"]),
        }
    );
    assert_eq!(
        run(&greet(), "../jogfile", &strings(&["a", "b"]), 101, 100, Some("sh".to_string())),
        greet().run("../jogfile", &strings(&["a", "b"]), 101, 100, Some("sh".to_string()))
    );
    assert!(matches!(
        run(&greet(), "../jogfile", &strings(&["a", "b"]), 101, 100, Some("sh".to_string())),
        Err(Error::RecursionLimit { .. })
    ));
}

#[test]
fn arguments_beyond_the_parameters_are_for_a_rest_parameter_only() {
    let mut task = greet();
    let args = strings(&["a", "b", "c", "d"]);
    let call = task.run("jogfile", &args, 0, 100, Some("sh".to_string())).unwrap();
    assert_eq!(call.args, strings(&["-c", "  echo \"$greeting, $name\" \"$@\"\n", "jogfile", "c", "d"]));
    task.rest = false;
    let call = task.run("jogfile", &args, 0, 100, Some("sh".to_string())).unwrap();
    assert_eq!(call.args, strings(&["-c", "  echo \"$greeting, $name\" \"$@\"\n", "jogfile"]));
    assert_eq!(
        call.env,
        vec![pair("greeting", "a"), pair("name", "b"), pair("JOG_DEPTH", "1")]
    );
}

#[test]
fn the_child_finds_each_argument_under_its_parameter() {
    let task = Task {
        name: "t".to_string(),
        params: strings(&["first", "second", "third"]),
        rest: true,
        body: String::new(),
        line_no: 1,
    };
    let args = strings(&["a b", "", "$(x) 'y' \"z\"\n", "more"]);
    let call = task.run("jogfile", &args, 9, 100, Some("sh".to_string())).unwrap();
    let mut seen = std::collections::HashMap::new();
    for (name, value) in &call.env {
        seen.insert(name.clone(), value.clone());
    }
    assert_eq!(seen.len(), 4);
    assert_eq!(seen["first"], args[0]);
    assert_eq!(seen["second"], args[1]);
    assert_eq!(seen["third"], args[2]);
    assert_eq!(seen["JOG_DEPTH"], "10");
}

#[test]
fn the_depth_counter_comes_after_a_parameter_of_its_name() {
    let task = Task {
        name: "t".to_string(),
        params: strings(&["JOG_DEPTH"]),
        rest: false,
        body: String::new(),
        line_no: 1,
    };
    let call = task.run("jogfile", &strings(&["7"]), 0, 100, Some("sh".to_string())).unwrap();
    assert_eq!(call.env, vec![pair("JOG_DEPTH", "7"), pair("JOG_DEPTH", "1")]);
}

#[test]
fn a_variable_that_is_not_set_has_its_default() {
    assert_eq!(parse_env_or_default("JOG_DEPTH", None, 0), Ok(0));
    assert_eq!(parse_env_or_default("JOG_MAX_DEPTH", None, 100), Ok(100));
}

#[test]
fn a_variable_that_is_set_must_hold_an_integer() {
    assert_eq!(parse_env_or_default("JOG_DEPTH", Some("17"), 0), Ok(17));
    assert_eq!(parse_env_or_default("JOG_MAX_DEPTH", Some("-1"), 100), Ok(-1));
    assert_eq!(
        parse_env_or_default("JOG_MAX_DEPTH", Some("many"), 100),
        Err(Error::Environment { variable: "JOG_MAX_DEPTH".to_string() })
    );
    assert_eq!(
        parse_env_or_default("JOG_DEPTH", Some(""), 0),
        Err(Error::Environment { variable: "JOG_DEPTH".to_string() })
    );
}

#[test]
fn the_exit_code_of_the_shell_or_its_signal() {
    assert_eq!(exit_code(Some(0), None), Ok(0));
    assert_eq!(exit_code(Some(3), None), Ok(3));
    assert_eq!(exit_code(Some(3), Some(9)), Ok(3));
    assert_eq!(exit_code(None, Some(15)), Ok(15));
    assert_eq!(exit_code(None, None), Err(Error::Process));
    assert_eq!(Error::Process.message(), "the shell left neither an exit code nor a signal");
}

#[test]
fn the_message_of_a_malformed_header() {
    let err = Error::Parse { path: "x/jogfile".to_string(), line: 120 };
    assert_eq!(err.message(), "x/jogfile:120: malformed task: indented header");
}

fn files() -> Vec<jog::resolve::ConfigFile> {
    let near = "jogfile";
    let far = "../jogfile";
    vec![
        jog::resolve::ConfigFile {
            path: near.to_string(),
            tasks: jog::jogfile::read(near, "test a b\n  echo near \"$a\" \"$b\"\n").unwrap(),
            distance: 0,
        },
        jog::resolve::ConfigFile {
            path: far.to_string(),
            tasks: jog::jogfile::read(far, "test a\n  echo far\nloop ...\n  jog loop \"$@\"\n")
                .unwrap(),
            distance: 1,
        },
    ]
}

#[test]
fn a_call_is_prepared_from_the_nearest_definition_that_fits() {
    let call = jog::shell::prepare(
        &files(),
        "test",
        &strings(&["1", "2"]),
        None,
        None,
        Some("/bin/sh".to_string()),
    )
    .unwrap();
    assert_eq!(
        call,
        Invocation {
            shell: "/bin/sh".to_string(),
            env: vec![pair("a", "1"), pair("b", "2"), pair("JOG_DEPTH", "1")],
            args: strings(&["-c", "  echo near \"$a\" \"$b\"\n", "jogfile"]),
        }
    );
    let call = jog::shell::prepare(
        &files(),
        "test",
        &strings(&["1"]),
        Some("41"),
        None,
        Some("/bin/sh".to_string()),
    )
    .unwrap();
    assert_eq!(
        call,
        Invocation {
            shell: "/bin/sh".to_string(),
            env: vec![pair("a", "1"), pair("JOG_DEPTH", "42")],
            args: strings(&["-c", "  echo far\n", "../jogfile"]),
        }
    );
}

#[test]
fn the_hundred_and_first_nested_call_fails() {
    let args = strings(&["x"]);
    let mut depth: Option<String> = None;
    let mut calls = 0;
    let err = loop {
        match jog::shell::prepare(
            &files(),
            "loop",
            &args,
            depth.as_deref(),
            None,
            Some("sh".to_string()),
        ) {
            Ok(call) => {
                calls += 1;
                let handed_on = call.env.iter().find(|(name, _)| name == "JOG_DEPTH").unwrap();
                depth = Some(handed_on.1.clone());
            }
            Err(err) => break err,
        }
    };
    assert_eq!(calls, 101);
    assert_eq!(depth.as_deref(), Some("101"));
    assert_eq!(
        err,
        Error::RecursionLimit {
            path: "../jogfile".to_string(),
            line: 3,
            name: "loop".to_string(),
            given: 1,
        }
    );
}

#[test]
fn the_greatest_depth_can_be_overridden() {
    let prepare = |depth: &str, max: &str| {
        jog::shell::prepare(
            &files(),
            "loop",
            &[],
            Some(depth),
            Some(max),
            Some("sh".to_string()),
        )
    };
    assert_eq!(prepare("150", "200").unwrap().env, vec![pair("JOG_DEPTH", "151")]);
    assert!(matches!(prepare("3", "2"), Err(Error::RecursionLimit { .. })));
    assert!(prepare("2", "2").is_ok());
    assert!(matches!(prepare("0", "-1"), Err(Error::RecursionLimit { .. })));
}

#[test]
fn what_goes_wrong_first_is_reported() {
    let none: Option<String> = None;
    assert_eq!(
        jog::shell::prepare(&[], "test", &[], Some("x"), Some("y"), none.clone()),
        Err(Error::Discovery)
    );
    assert_eq!(
        jog::shell::prepare(&files(), "deploy", &[], Some("x"), Some("y"), none.clone()),
        Err(Error::UnknownTask { path: "jogfile".to_string(), name: "deploy".to_string() })
    );
    assert!(matches!(
        jog::shell::prepare(&files(), "test", &[], Some("x"), Some("y"), none.clone()),
        Err(Error::ArityMismatch { .. })
    ));
    assert_eq!(
        jog::shell::prepare(&files(), "loop", &[], Some("x"), Some("y"), none.clone()),
        Err(Error::Environment { variable: "JOG_DEPTH".to_string() })
    );
    assert_eq!(
        jog::shell::prepare(&files(), "loop", &[], Some("1"), Some("y"), none.clone()),
        Err(Error::Environment { variable: "JOG_MAX_DEPTH".to_string() })
    );
    assert!(matches!(
        jog::shell::prepare(&files(), "loop", &[], Some("5"), Some("4"), none.clone()),
        Err(Error::RecursionLimit { .. })
    ));
    assert_eq!(
        jog::shell::prepare(&files(), "loop", &[], Some("4"), Some("4"), none),
        Err(Error::Environment { variable: "SHELL".to_string() })
    );
}
