use herdr_spreader::backend::cli::{
    choose_focus_strategy, focus_args, focus_request, pane_get_args, pane_layout_args,
    pane_run_args, pane_split_args, parse_pane_cwd, parse_pane_size, parse_pane_split,
    parse_socket_line, parse_tab_created, parse_workspace_created, read_pane_cwd, read_pane_size,
    read_pane_split, read_tab_created, read_workspace_created, rename_tab_args, settle_answer,
    tab_create_args, wait_output_args, workspace_create_args, CliBackend, FocusStep,
    FocusStrategy, ProcessOutcome, SocketOutcome, SplitStep,
};
use herdr_spreader::backend::{BackendError, SplitOpts, TabOpts, WorkspaceOpts};
use herdr_spreader::config::{CellMetrics, Ratio, SplitDirection, WaitFor};
use herdr_spreader::env::EnvMap;
use herdr_spreader::json::tree::{field, json_tree, Json};

fn cannot_spawn() -> ProcessOutcome {
    ProcessOutcome::SpawnFailed {
        message: "No such file or directory (os error 2)".to_string(),
    }
}

fn printed(stdout: &str) -> ProcessOutcome {
    ProcessOutcome::Exited {
        success: true,
        code: Some(0),
        stdout: stdout.to_string(),
        stderr: String::new(),
    }
}

#[test]
fn should_build_workspace_create_argv_with_cwd_label_env_and_no_focus() {
    let mut env = EnvMap::new();
    env.insert("FOO".to_string(), "bar".to_string());
    let opts = WorkspaceOpts {
        label: "demo".to_string(),
        cwd: Some("/proj".to_string()),
        env,
        focus: false,
    };

    let args = workspace_create_args(&opts);

    assert_eq!(
        args,
        vec![
            "workspace",
            "create",
            "--cwd",
            "/proj",
            "--label",
            "demo",
            "--env",
            "FOO=bar",
            "--no-focus"
        ]
    );
}

#[test]
fn should_build_tab_create_argv_with_workspace_cwd_label_and_no_focus() {
    let opts = TabOpts {
        label: Some("editor".to_string()),
        cwd: Some("/proj/src".to_string()),
        focus: false,
    };

    let args = tab_create_args("w9", &opts);

    assert_eq!(
        args,
        vec![
            "tab",
            "create",
            "--workspace",
            "w9",
            "--cwd",
            "/proj/src",
            "--label",
            "editor",
            "--no-focus"
        ]
    );
}

#[test]
fn should_build_pane_split_argv_with_direction_and_ratio() {
    let opts = SplitOpts {
        direction: SplitDirection::Down,
        ratio: Ratio::new("0.3"),
        cwd: None,
        env: EnvMap::new(),
        focus: false,
    };

    let args = pane_split_args("wA:p1", &opts).unwrap();

    assert_eq!(
        args,
        vec![
            "pane",
            "split",
            "wA:p1",
            "--direction",
            "down",
            "--ratio",
            "0.3",
            "--no-focus"
        ]
    );
}

#[test]
fn should_reject_unresolved_auto_split_in_herdr_argv() {
    let opts = SplitOpts {
        direction: SplitDirection::Auto,
        ..Default::default()
    };

    let err = pane_split_args("wA:p1", &opts).unwrap_err();

    assert!(err.to_string().contains("auto split"));
}

#[test]
fn should_build_pane_layout_argv() {
    assert_eq!(
        pane_layout_args("wA:p1"),
        vec!["pane", "layout", "--pane", "wA:p1"]
    );
}

#[test]
fn should_parse_pane_size_from_matching_rect() {
    let json = r#"{
        "result": {
            "layout": {
                "area": { "width": 160, "height": 80 },
                "panes": [
                    { "pane_id": "wA:p1", "rect": { "width": 80, "height": 120 } }
                ]
            }
        }
    }"#;

    assert_eq!(parse_pane_size(json, "wA:p1").unwrap(), (80, 120));
}

#[test]
fn should_fall_back_to_layout_area_when_pane_is_missing() {
    let json = r#"{
        "result": {
            "layout": {
                "area": { "width": 160, "height": 80 },
                "panes": []
            }
        }
    }"#;

    assert_eq!(parse_pane_size(json, "wA:p1").unwrap(), (160, 80));
}

#[test]
fn should_build_pane_run_argv_with_pane_id_and_command() {
    let args = pane_run_args("wA:p1", "cargo test");

    assert_eq!(args, vec!["pane", "run", "wA:p1", "cargo test"]);
}

#[test]
fn should_build_wait_output_argv_with_regex_free_match_and_timeout() {
    let wait = WaitFor {
        pattern: "Compiling".to_string(),
        timeout_ms: Some(10000),
    };

    let args = wait_output_args("wA:p2", &wait);

    assert_eq!(
        args,
        vec![
            "pane",
            "wait-output",
            "wA:p2",
            "--match",
            "Compiling",
            "--timeout",
            "10000"
        ]
    );
}

#[test]
fn should_build_focus_argv_with_pane_id() {
    let args = focus_args("wA:p1");

    assert_eq!(
        args,
        vec!["pane", "focus", "--pane", "wA:p1", "--direction", "left"]
    );
}

#[test]
fn should_build_focus_argv_with_second_pane_id_always_using_direction_left() {
    let args = focus_args("wA:p3");

    assert_eq!(
        args,
        vec!["pane", "focus", "--pane", "wA:p3", "--direction", "left"]
    );
}

#[test]
fn should_extract_nested_ids_when_parsing_workspace_created_response() {
    let json = r#"{"result":{"type":"workspace_created",
      "workspace":{"workspace_id":"wA","label":"__probe_spreader","active_tab_id":"wA:t1"},
      "tab":{"tab_id":"wA:t1","label":"1"},
      "root_pane":{"pane_id":"wA:p1","tab_id":"wA:t1","workspace_id":"wA","cwd":"/tmp"}}}"#;

    let created = parse_workspace_created(json).unwrap();

    assert_eq!(created.workspace_id, "wA");
    assert_eq!(created.tab_id, "wA:t1");
    assert_eq!(created.root_pane_id, "wA:p1");
}

#[test]
fn should_extract_tab_and_root_pane_ids_when_parsing_tab_created_response() {
    let json = r#"{"result":{"type":"tab_created","tab":{"tab_id":"wA:t2"},"root_pane":{"pane_id":"wA:p2"}}}"#;

    let created = parse_tab_created(json).unwrap();

    assert_eq!(created.tab_id, "wA:t2");
    assert_eq!(created.root_pane_id, "wA:p2");
}

#[test]
fn should_extract_new_pane_id_when_parsing_pane_info_response() {
    let json = r#"{"result":{"type":"pane_info","pane":{"pane_id":"wA:p3","tab_id":"wA:t1"}}}"#;

    let pane_id = parse_pane_split(json).unwrap();

    assert_eq!(pane_id, "wA:p3");
}

#[test]
fn should_build_pane_get_argv_with_pane_id() {
    let args = pane_get_args("wA:p1");

    assert_eq!(args, vec!["pane", "get", "wA:p1"]);
}

#[test]
fn should_extract_foreground_cwd_when_parsing_pane_get_response() {
    let json = r#"{"result":{"type":"pane_info","pane":{"pane_id":"wA:p1","tab_id":"wA:t1","foreground_cwd":"/home/demo/project"}}}"#;

    let cwd = parse_pane_cwd(json).unwrap();

    assert_eq!(cwd, Some("/home/demo/project".to_string()));
}

#[test]
fn should_return_none_cwd_when_pane_get_response_omits_foreground_cwd() {
    let json = r#"{"result":{"type":"pane_info","pane":{"pane_id":"wA:p1","tab_id":"wA:t1"}}}"#;

    let cwd = parse_pane_cwd(json).unwrap();

    assert_eq!(cwd, None);
}

#[test]
fn should_return_none_when_querying_pane_cwd_against_a_binary_that_cannot_be_spawned() {
    let backend = CliBackend::new("/no/such/herdr-binary-xyz".to_string(), None);

    let cwd = backend.query_pane_cwd(cannot_spawn());

    assert_eq!(cwd, None);
}

#[test]
fn should_return_backend_error_containing_message_when_response_is_error_json() {
    let json = r#"{"id":"abc","error":{"code":"invalid_request","message":"unknown variant `bogus`"}}"#;

    let result = parse_workspace_created(json);

    let err = result.unwrap_err();
    match err {
        BackendError::Herdr { message } => {
            assert!(message.contains("unknown variant"));
        }
        other @ BackendError::CommandFailed { .. } => {
            panic!("expected BackendError::Herdr, got {other:?}")
        }
    }
}

#[test]
fn should_return_command_failed_error_with_stderr_when_process_exits_non_zero() {
    let backend = CliBackend::new("/bin/sh".to_string(), None);

    let result = backend.exec(ProcessOutcome::Exited {
        success: false,
        code: Some(7),
        stdout: String::new(),
        stderr: "boom\n".to_string(),
    });

    let err = result.unwrap_err();
    match err {
        BackendError::CommandFailed { code, stderr } => {
            assert_eq!(code, Some(7));
            assert!(stderr.contains("boom"));
        }
        other @ BackendError::Herdr { .. } => {
            panic!("expected BackendError::CommandFailed, got {other:?}")
        }
    }
}

#[test]
fn should_return_herdr_error_when_binary_cannot_be_spawned() {
    let backend = CliBackend::new("/no/such/herdr-binary-xyz".to_string(), None);

    let result = backend.exec(cannot_spawn());

    assert!(result.is_err());
}

#[test]
fn should_build_rename_tab_argv_with_tab_id_and_label() {
    let args = rename_tab_args("wA:t1", "editor");

    assert_eq!(args, vec!["tab", "rename", "wA:t1", "editor"]);
}

#[test]
fn should_resolve_herdr_binary_from_env_and_fall_back_to_herdr_on_path() {
    let mut env_with_bin = EnvMap::new();
    env_with_bin.insert("HERDR_BIN_PATH".to_string(), "/opt/herdr".to_string());

    let resolved = CliBackend::resolve_bin(&env_with_bin);
    assert_eq!(resolved, "/opt/herdr".to_string());

    let env_without_bin = EnvMap::new();
    let fallback = CliBackend::resolve_bin(&env_without_bin);
    assert_eq!(fallback, "herdr".to_string());
}

#[test]
fn should_choose_socket_strategy_when_socket_path_is_provided() {
    assert_eq!(
        choose_focus_strategy(Some("/tmp/sock")),
        FocusStrategy::Socket("/tmp/sock".to_string())
    );
}

#[test]
fn should_choose_cli_strategy_when_socket_path_is_absent() {
    assert_eq!(choose_focus_strategy(None), FocusStrategy::Cli);
}

#[test]
fn should_choose_cli_strategy_when_socket_path_is_empty_string() {
    assert_eq!(choose_focus_strategy(Some("")), FocusStrategy::Cli);
}

fn message_of(err: BackendError) -> String {
    match err {
        BackendError::Herdr { message } => message,
        other => panic!("expected BackendError::Herdr, got {other:?}"),
    }
}

#[test]
fn errors_speak_for_themselves() {
    let herdr = BackendError::Herdr {
        message: "boom".to_string(),
    };
    assert_eq!(herdr.to_string(), "backend error: boom");
    let failed = |code: Option<i32>| {
        BackendError::CommandFailed {
            code,
            stderr: "boom".to_string(),
        }
        .to_string()
    };
    assert_eq!(
        failed(Some(7)),
        "herdr command failed (exit code Some(7)): boom"
    );
    assert_eq!(
        failed(Some(-9)),
        "herdr command failed (exit code Some(-9)): boom"
    );
    assert_eq!(failed(None), "herdr command failed (exit code None): boom");
}

#[test]
fn a_command_that_cannot_be_started_names_the_binary() {
    let backend = CliBackend::new("/opt/herdr".to_string(), None);
    assert_eq!(backend.bin(), "/opt/herdr");
    assert_eq!(
        message_of(backend.exec(cannot_spawn()).unwrap_err()),
        "failed to spawn herdr binary /opt/herdr: No such file or directory (os error 2)"
    );
    assert_eq!(backend.exec(printed("out")).unwrap(), "out");
    assert!(backend.finished(printed("out")).is_ok());
}

#[test]
fn an_answer_that_is_no_json_is_reported_in_the_words_of_the_parser() {
    let text = "{\"result\":";
    let expected = serde_json::from_str::<serde_json::Value>(text)
        .unwrap_err()
        .to_string();
    assert_eq!(
        message_of(parse_workspace_created(text).unwrap_err()),
        expected
    );
    assert_eq!(message_of(parse_pane_split(text).unwrap_err()), expected);
}

#[test]
fn an_answer_of_another_shape_is_refused() {
    let mismatch = "data did not match any variant of untagged enum Envelope";
    for text in [
        "{}",
        "[]",
        "null",
        "{\"result\":{}}",
        "{\"result\":{\"pane\":{}}}",
        "{\"result\":{\"pane\":{\"pane_id\":7}}}",
        "{\"result\":{\"pane\":null}}",
        "{\"error\":{\"code\":1}}",
        "{\"error\":\"plain\"}",
        "{\"result\":[{\"pane_id\":\"p\"},1]}",
        "[{\"pane\":{\"pane_id\":\"p\"}}]",
    ] {
        assert_eq!(
            message_of(parse_pane_split(text).unwrap_err()),
            mismatch,
            "{text}"
        );
    }
}

const MISMATCH: &str = "data did not match any variant of untagged enum Envelope";

#[test]
fn an_answer_that_repeats_a_key_it_is_read_by_is_refused() {
    for text in [
        r#"{"result":{"pane":{"pane_id":"a"}},"result":{"pane":{"pane_id":"b"}}}"#,
        r#"{"result":{"pane":{"pane_id":"a"}},"result":{"pane":{"pane_id":"a"}}}"#,
        r#"{"result":{"pane":{"pane_id":"a"},"pane":{"pane_id":"b"}}}"#,
        r#"{"result":{"pane":{"pane_id":"a","pane_id":"b"}}}"#,
        r#"{"result":{"pane":{"pane_id":"a","pane\u005fid":"b"}}}"#,
        r#"{"result":[{"pane_id":"a","pane_id":"b"}]}"#,
        r#"{"error":{"message":"a"},"error":{"message":"b"}}"#,
        r#"{"error":{"message":"a","message":"b"}}"#,
    ] {
        assert_eq!(
            message_of(parse_pane_split(text).unwrap_err()),
            MISMATCH,
            "{text}"
        );
    }
    let cwd = r#"{"result":{"pane":{"foreground_cwd":null,"foreground_cwd":"/tmp"}}}"#;
    assert_eq!(message_of(parse_pane_cwd(cwd).unwrap_err()), MISMATCH);
    for text in [
        r#"{"result":{"layout":{"area":{"width":1,"width":1,"height":2}}}}"#,
        r#"{"result":{"layout":{"area":{"width":1,"height":2},"panes":[],"panes":[]}}}"#,
        r#"{"result":{"layout":{"area":[1,2],"panes":[{"pane_id":"p","pane_id":"p","rect":[3,4]}]}}}"#,
    ] {
        assert_eq!(
            message_of(parse_pane_size(text, "p").unwrap_err()),
            MISMATCH,
            "{text}"
        );
    }
}

#[test]
fn a_key_that_is_not_looked_at_may_be_repeated() {
    for text in [
        r#"{"id":1,"id":2,"result":{"pane":{"pane_id":"a","x":{},"x":[1,{"y":2,"y":3}]},"z":0,"z":0}}"#,
        r#"{"error":{"message":"a"},"error":{"message":"b"},"result":{"pane":{"pane_id":"a"}}}"#,
        " \t\r\n{ \"result\" : { \"pane\" : { \"pane_id\" : \"a\" } } } \n",
    ] {
        assert_eq!(parse_pane_split(text).unwrap(), "a", "{text}");
    }
    let text = r#"{"result":{"pane":{"pane_id":"a"}},"result":0,"error":{"message":"no"}}"#;
    assert_eq!(message_of(parse_pane_split(text).unwrap_err()), "no");
}

#[test]
fn text_behind_an_answer_is_reported_where_the_answer_has_the_right_shape() {
    for text in [
        r#"{"result":{"pane":{"pane_id":"a"}}} x"#,
        r#"{"error":{"message":"no"}}{}"#,
    ] {
        let expected = serde_json::from_str::<serde_json::Value>(text)
            .unwrap_err()
            .to_string();
        assert!(expected.starts_with("trailing characters"));
        assert_eq!(
            message_of(parse_pane_split(text).unwrap_err()),
            expected,
            "{text}"
        );
    }
    for text in ["[] x", "1x", "{} {", "null null", r#"{"result":{}},"#] {
        assert_eq!(
            message_of(parse_pane_split(text).unwrap_err()),
            MISMATCH,
            "{text}"
        );
    }
    for text in ["", " ", "{", "x", "{\"a\" 1}"] {
        let expected = serde_json::from_str::<serde_json::Value>(text)
            .unwrap_err()
            .to_string();
        assert_eq!(
            message_of(parse_pane_split(text).unwrap_err()),
            expected,
            "{text}"
        );
    }
}

fn text(text: &str) -> Json {
    Json::Text(text.to_string())
}

fn object(members: Vec<(&str, Json)>) -> Json {
    Json::Object(
        members
            .into_iter()
            .map(|(key, value)| (key.to_string(), value))
            .collect(),
    )
}

fn number(n: u64) -> Json {
    Json::Number {
        whole: Some(n),
        text: n.to_string(),
    }
}

#[test]
fn a_tree_keeps_every_member_in_order() {
    let tree = json_tree(r#" { "b" : [ ] , "a":[null,true,-1.5,"é\n",{}], "b":{"c":7} } rest"#);
    assert_eq!(
        tree,
        Some(object(vec![
            ("b", Json::Array(vec![])),
            (
                "a",
                Json::Array(vec![
                    Json::Null,
                    Json::Bool(true),
                    Json::Number {
                        whole: None,
                        text: "-1.5".to_string()
                    },
                    text("é\n"),
                    object(vec![]),
                ])
            ),
            ("b", object(vec![("c", number(7))])),
        ]))
    );
    assert_eq!(json_tree("{"), None);
    assert_eq!(json_tree(""), None);
    assert_eq!(json_tree("1,2"), Some(number(1)));
    let deep = format!("{}{}", "[".repeat(120), "]".repeat(120));
    assert!(json_tree(&deep).is_some());
}

#[test]
fn fields_are_found_by_name_or_by_place() {
    let tree = object(vec![("a", text("x")), ("b", text("y")), ("b", text("z"))]);
    assert_eq!(field(&tree, "a", 0, 2), Some(Some(&text("x"))));
    assert_eq!(field(&tree, "b", 1, 2), None);
    assert_eq!(field(&tree, "c", 1, 2), Some(None));
    let tree = Json::Array(vec![text("x")]);
    assert_eq!(field(&tree, "a", 0, 2), Some(Some(&text("x"))));
    assert_eq!(field(&tree, "b", 1, 2), Some(None));
    assert_eq!(field(&tree, "a", 0, 0), None);
    assert_eq!(field(&Json::Null, "a", 0, 1), None);
}

#[test]
fn answers_are_read_off_their_tree() {
    let under = |result: Json| object(vec![("result", result)]);
    let pane = || object(vec![("pane_id", text("p"))]);
    let tab = || object(vec![("tab_id", text("t"))]);
    assert_eq!(
        read_pane_split(&under(object(vec![("pane", pane())]))),
        Some(Ok("p".to_string()))
    );
    assert_eq!(read_pane_split(&under(Json::Null)), None);
    assert_eq!(read_pane_split(&Json::Null), None);
    let tab_created = read_tab_created(&under(Json::Array(vec![tab(), pane()])));
    assert_eq!(tab_created.unwrap().unwrap().tab_id, "t");
    let created = read_workspace_created(&under(object(vec![
        ("root_pane", pane()),
        ("tab", tab()),
        ("workspace", object(vec![("workspace_id", text("w"))])),
    ])));
    assert_eq!(created.unwrap().unwrap().workspace_id, "w");
    let cwd = object(vec![("foreground_cwd", text("/tmp"))]);
    assert_eq!(
        read_pane_cwd(&under(object(vec![("pane", cwd)]))),
        Some(Ok(Some("/tmp".to_string())))
    );
    let area = object(vec![("width", number(4)), ("height", number(3))]);
    let layout = object(vec![("area", area)]);
    assert_eq!(
        read_pane_size(&under(object(vec![("layout", layout)])), "p"),
        Some(Ok((4, 3)))
    );
    let error = object(vec![("error", object(vec![("message", text("no"))]))]);
    assert_eq!(
        message_of(read_pane_split(&error).unwrap().unwrap_err()),
        "no"
    );
}

#[test]
fn what_was_read_is_settled_by_what_comes_behind_it() {
    let read = || Some(Ok("p".to_string()));
    assert_eq!(settle_answer(read(), None), Ok("p".to_string()));
    assert_eq!(
        message_of(settle_answer(read(), Some("stray".to_string())).unwrap_err()),
        "stray"
    );
    let nothing: Option<Result<String, BackendError>> = None;
    assert_eq!(
        message_of(settle_answer(nothing, Some("stray".to_string())).unwrap_err()),
        MISMATCH
    );
}

#[test]
fn a_reported_error_comes_before_a_result() {
    let text = r#"{"result":{"pane":{"pane_id":"p"}},"error":{"message":"no"}}"#;
    assert_eq!(message_of(parse_pane_split(text).unwrap_err()), "no");
    let text = r#"{"result":{"pane":{"pane_id":"p"}},"error":{"reason":"no"}}"#;
    assert_eq!(parse_pane_split(text).unwrap(), "p");
    let text = r#"{"error":["no"]}"#;
    assert_eq!(message_of(parse_pane_split(text).unwrap_err()), "no");
}

#[test]
fn records_may_be_written_as_arrays() {
    assert_eq!(
        parse_pane_split(r#"{"result":[["wA:p3"]]}"#).unwrap(),
        "wA:p3"
    );
    let created =
        parse_workspace_created(r#"{"result":[["wA"],{"tab_id":"t"},["p"]]}"#).unwrap();
    assert_eq!(created.workspace_id, "wA");
    assert_eq!(created.tab_id, "t");
    assert_eq!(created.root_pane_id, "p");
    assert_eq!(
        parse_pane_cwd(r#"{"result":[["/tmp"]]}"#).unwrap(),
        Some("/tmp".to_string())
    );
    assert_eq!(parse_pane_cwd(r#"{"result":[[]]}"#).unwrap(), None);
    assert_eq!(
        parse_pane_size(r#"{"result":[[[160,80],[["p",[80,120]]]]]}"#, "p").unwrap(),
        (80, 120)
    );
    assert_eq!(
        parse_pane_size(r#"{"result":[[[160,80]]]}"#, "p").unwrap(),
        (160, 80)
    );
}

#[test]
fn a_null_directory_is_none_and_any_other_value_is_refused() {
    let answer = |cwd: &str| format!("{{\"result\":{{\"pane\":{{\"foreground_cwd\":{cwd}}}}}}}");
    assert_eq!(parse_pane_cwd(&answer("null")).unwrap(), None);
    assert_eq!(
        parse_pane_cwd(&answer("\"/x\"")).unwrap(),
        Some("/x".to_string())
    );
    assert!(parse_pane_cwd(&answer("5")).is_err());
}

#[test]
fn a_pane_size_is_that_of_the_first_match() {
    let json = r#"{"result":{"layout":{"area":{"width":1,"height":2},"panes":[
        {"pane_id":"a","rect":{"width":3,"height":4}},
        {"pane_id":"b","rect":{"width":5,"height":6}},
        {"pane_id":"b","rect":{"width":7,"height":8}}]}}}"#;
    assert_eq!(parse_pane_size(json, "a").unwrap(), (3, 4));
    assert_eq!(parse_pane_size(json, "b").unwrap(), (5, 6));
    assert_eq!(parse_pane_size(json, "c").unwrap(), (1, 2));
    let broken = r#"{"result":{"layout":{"area":{"width":1,"height":2},"panes":[
        {"pane_id":"a","rect":{"width":3,"height":4}},
        {"pane_id":"b","rect":{"width":-5,"height":6}}]}}}"#;
    assert!(parse_pane_size(broken, "a").is_err());
    let float = r#"{"result":{"layout":{"area":{"width":1.0,"height":2}}}}"#;
    assert!(parse_pane_size(float, "a").is_err());
    let bare = r#"{"result":{"layout":{"area":{"width":18446744073709551615,"height":2}}}}"#;
    assert_eq!(parse_pane_size(bare, "a").unwrap(), (u64::MAX, 2));
    let null = r#"{"result":{"layout":{"area":{"width":1,"height":2},"panes":null}}}"#;
    assert!(parse_pane_size(null, "a").is_err());
}

#[test]
fn variables_are_passed_in_the_order_of_their_names() {
    let mut env = EnvMap::new();
    env.insert("B".to_string(), "2".to_string());
    env.insert("A".to_string(), "1 = one".to_string());
    let opts = SplitOpts {
        direction: SplitDirection::Right,
        ratio: None,
        cwd: Some("/tmp/a b".to_string()),
        env,
        focus: true,
    };
    assert_eq!(
        pane_split_args("p", &opts).unwrap(),
        vec![
            "pane",
            "split",
            "p",
            "--direction",
            "right",
            "--cwd",
            "/tmp/a b",
            "--env",
            "A=1 = one",
            "--env",
            "B=2",
            "--focus"
        ]
    );
}

#[test]
fn creation_says_who_gets_focus_by_its_last_argument() {
    for focus in [true, false] {
        let flag = if focus { "--focus" } else { "--no-focus" };
        let workspace = workspace_create_args(&WorkspaceOpts {
            label: "--focus".to_string(),
            cwd: None,
            env: EnvMap::new(),
            focus,
        });
        assert_eq!(workspace.last().unwrap(), flag);
        let tab = tab_create_args(
            "w",
            &TabOpts {
                label: None,
                cwd: None,
                focus,
            },
        );
        assert_eq!(tab.last().unwrap(), flag);
        let split = pane_split_args(
            "p",
            &SplitOpts {
                focus,
                ..Default::default()
            },
        );
        assert_eq!(split.unwrap().last().unwrap(), flag);
    }
}

#[test]
fn waiting_without_a_timeout_passes_none() {
    let wait = WaitFor {
        pattern: "ready".to_string(),
        timeout_ms: None,
    };
    assert_eq!(
        wait_output_args("p", &wait),
        vec!["pane", "wait-output", "p", "--match", "ready"]
    );
}

#[test]
fn the_focus_request_is_one_line_that_names_the_pane() {
    let request = focus_request("wA:\"p\"").unwrap();
    let text = String::from_utf8(request).unwrap();
    assert_eq!(
        text,
        "{\"id\":\"1\",\"jsonrpc\":\"2.0\",\"method\":\"pane.focus\",\"params\":{\"pane_id\":\"wA:\\\"p\\\"\"}}\n"
    );
    let value: serde_json::Value = serde_json::from_str(&text).unwrap();
    assert_eq!(value["params"]["pane_id"], "wA:\"p\"");
}

#[test]
fn a_request_that_cannot_be_encoded_is_an_error() {
    let ended = herdr_spreader::backend::cli::end_focus_request(Err("bad".to_string()));
    assert_eq!(
        message_of(ended.unwrap_err()),
        "failed to serialize JSON-RPC request: bad"
    );
}

#[test]
fn the_socket_reports_errors_in_its_answer() {
    assert!(parse_socket_line("{\"result\":{}}\n").is_ok());
    assert!(parse_socket_line("[]").is_ok());
    assert_eq!(
        message_of(parse_socket_line(r#"{"error":{"message":"gone"}}"#).unwrap_err()),
        "herdr socket error: gone"
    );
    assert_eq!(
        message_of(parse_socket_line(r#"{"error":{"message":5}}"#).unwrap_err()),
        "herdr socket error: unknown error"
    );
    assert_eq!(
        message_of(parse_socket_line(r#"{"error":null}"#).unwrap_err()),
        "herdr socket error: unknown error"
    );
    let reason = serde_json::from_str::<serde_json::Value>("")
        .unwrap_err()
        .to_string();
    assert_eq!(
        message_of(parse_socket_line("").unwrap_err()),
        format!("invalid JSON-RPC response: {reason}")
    );
}

#[test]
fn every_way_the_socket_fails_has_its_own_words() {
    let via = |outcome: SocketOutcome| {
        message_of(
            herdr_spreader::backend::cli::focus_pane_via_socket("/tmp/sock", outcome).unwrap_err(),
        )
    };
    let message = "broken".to_string();
    assert_eq!(
        via(SocketOutcome::ConnectFailed {
            message: message.clone()
        }),
        "failed to connect to herdr socket at /tmp/sock: broken"
    );
    assert_eq!(
        via(SocketOutcome::WriteFailed {
            message: message.clone()
        }),
        "failed to write to herdr socket: broken"
    );
    assert_eq!(
        via(SocketOutcome::ReadFailed { message }),
        "failed to read from herdr socket: broken"
    );
    assert_eq!(
        via(SocketOutcome::Unsent {
            error: BackendError::Herdr {
                message: "not here".to_string()
            }
        }),
        "not here"
    );
}

#[test]
fn focus_goes_by_the_socket_first_and_keeps_its_error() {
    let backend = CliBackend::new("herdr".to_string(), Some("/tmp/sock".to_string()));
    let refused = || SocketOutcome::ConnectFailed {
        message: "refused".to_string(),
    };
    let answered = |line: &str| SocketOutcome::Answered {
        line: line.to_string(),
    };
    assert_eq!(
        backend.focus_step("p", None, None),
        FocusStep::AskSocket("/tmp/sock".to_string())
    );
    assert_eq!(
        backend.focus_step("p", Some(answered("{}")), None),
        FocusStep::Done(Ok(()))
    );
    assert_eq!(
        backend.focus_step("p", Some(refused()), None),
        FocusStep::Run(focus_args("p"))
    );
    assert_eq!(
        backend.focus_step("p", Some(refused()), Some(printed(""))),
        FocusStep::Done(Ok(()))
    );
    let unsent = || SocketOutcome::Unsent {
        error: BackendError::Herdr {
            message: "failed to serialize JSON-RPC request: bad".to_string(),
        },
    };
    assert_eq!(
        backend.focus_step("p", Some(unsent()), None),
        FocusStep::Run(focus_args("p"))
    );
    assert_eq!(
        backend.focus_step("p", Some(unsent()), Some(printed(""))),
        FocusStep::Done(Ok(()))
    );
    let step = backend.focus_step("p", Some(refused()), Some(cannot_spawn()));
    match step {
        FocusStep::Done(Err(err)) => {
            let message = message_of(err);
            assert!(message.contains("/tmp/sock"));
            assert!(!message.contains("spawn"));
        }
        other => panic!("expected an error, got {other:?}"),
    }
}

#[test]
fn focus_without_a_socket_goes_by_the_command() {
    for socket in [None, Some(String::new())] {
        let backend = CliBackend::new("herdr".to_string(), socket);
        assert_eq!(
            backend.focus_step("p", None, None),
            FocusStep::Run(focus_args("p"))
        );
        assert_eq!(
            backend.focus_step("p", None, Some(printed(""))),
            FocusStep::Done(Ok(()))
        );
        assert!(matches!(
            backend.focus_step("p", None, Some(cannot_spawn())),
            FocusStep::Done(Err(BackendError::Herdr { .. }))
        ));
    }
}

#[test]
fn an_auto_split_asks_for_the_layout_and_picks_the_longer_side() {
    let backend = CliBackend::new("herdr".to_string(), None);
    let opts = SplitOpts {
        direction: SplitDirection::Auto,
        ratio: Ratio::new("0.25"),
        ..Default::default()
    };
    assert_eq!(
        backend.split_step("p", &opts, None, None),
        SplitStep::AskLayout(pane_layout_args("p"))
    );
    let layout = |width: u64, height: u64| {
        printed(&format!(
            "{{\"result\":{{\"layout\":{{\"area\":{{\"width\":{width},\"height\":{height}}}}}}}}}"
        ))
    };
    let split = |direction: &str| {
        SplitStep::Split(
            [
                "pane",
                "split",
                "p",
                "--direction",
                direction,
                "--ratio",
                "0.25",
                "--no-focus",
            ]
            .iter()
            .map(|arg| arg.to_string())
            .collect(),
        )
    };
    assert_eq!(
        backend.split_step("p", &opts, Some(layout(160, 80)), None),
        split("right")
    );
    assert_eq!(
        backend.split_step("p", &opts, Some(layout(80, 120)), None),
        split("down")
    );
    let cell = Some(CellMetrics {
        width: 8,
        height: 20,
    });
    assert_eq!(
        backend.split_step("p", &opts, Some(layout(100, 80)), cell),
        split("down")
    );
    assert!(matches!(
        backend.split_step("p", &opts, Some(cannot_spawn()), None),
        SplitStep::Failed(BackendError::Herdr { .. })
    ));
    let resolved = backend
        .resolve_split_opts("p", &opts, layout(80, 120), None)
        .unwrap();
    assert_eq!(resolved.direction, SplitDirection::Down);
    assert_eq!(resolved.ratio, opts.ratio);
}

#[test]
fn a_split_with_a_direction_asks_for_nothing() {
    let backend = CliBackend::new("herdr".to_string(), None);
    let opts = SplitOpts {
        direction: SplitDirection::Down,
        ..Default::default()
    };
    let expected = pane_split_args("p", &opts).unwrap();
    assert_eq!(
        backend.split_step("p", &opts, None, None),
        SplitStep::Split(expected)
    );
    assert_eq!(
        backend
            .resolve_split_opts("p", &opts, cannot_spawn(), None)
            .unwrap(),
        opts
    );
}

#[test]
fn a_pane_directory_is_found_when_herdr_answers() {
    let backend = CliBackend::new("herdr".to_string(), None);
    let answer = r#"{"result":{"pane":{"foreground_cwd":"/home/demo"}}}"#;
    assert_eq!(
        backend.query_pane_cwd(printed(answer)),
        Some("/home/demo".to_string())
    );
    assert_eq!(backend.query_pane_cwd(printed("nonsense")), None);
    assert_eq!(
        backend.query_pane_cwd(ProcessOutcome::Exited {
            success: false,
            code: None,
            stdout: answer.to_string(),
            stderr: String::new(),
        }),
        None
    );
}
