use herdr_spreader::config::{
    candidate_paths, cell_metrics, expand_tilde, find_first_existing, resolve_config_path,
    resolve_paths, resolve_workspace_paths, CellMetrics, ConfigError, Pane, Ratio, SplitDirection,
    SpreadFile, Tab, Workspace,
};
use herdr_spreader::env::EnvMap;

fn env_of(entries: &[(&str, &str)]) -> EnvMap {
    let mut env = EnvMap::new();
    for (name, value) in entries {
        env.insert(name.to_string(), value.to_string());
    }
    env
}

#[test]
fn should_format_not_found_error_message() {
    let err = ConfigError::NotFound;
    let msg = err.to_string();
    assert!(
        msg.contains("no config file"),
        "expected 'no config file' in '{msg}'"
    );
}

#[test]
fn should_prefer_explicit_path_over_plugin_config_dir_when_resolving_config_path() {
    let explicit = Some("/tmp/x.yml".to_string());
    let mut env = EnvMap::new();
    env.insert("HERDR_PLUGIN_CONFIG_DIR".to_string(), "/cfg".to_string());

    let resolved = resolve_config_path(explicit, &env, &vec![]).unwrap();

    assert_eq!(resolved, "/tmp/x.yml".to_string());
}

#[test]
fn should_list_all_candidate_paths_for_plugin_xdg_and_home_in_order_without_touching_the_filesystem() {
    let mut env = EnvMap::new();
    env.insert("HERDR_PLUGIN_CONFIG_DIR".to_string(), "/cfg".to_string());
    env.insert("XDG_CONFIG_HOME".to_string(), "/xdg".to_string());
    env.insert("HOME".to_string(), "/home/demo".to_string());
    let paths = candidate_paths(&env);
    assert_eq!(
        paths,
        vec![
            "/cfg/config.yaml",
            "/cfg/config.yml",
            "/xdg/herdr-spreader/config.yaml",
            "/xdg/herdr-spreader/config.yml",
            "/home/demo/.config/herdr-spreader/config.yaml",
            "/home/demo/.config/herdr-spreader/config.yml",
        ]
    );
}

#[test]
fn should_expand_home_relative_root_given_tilde_slash_prefix() {
    let config = Workspace {
        name: "demo".to_string(),
        root: Some("~/code/my-project".to_string()),
        ..Default::default()
    };
    let mut env = EnvMap::new();
    env.insert("HOME".to_string(), "/home/demo".to_string());

    let resolved = resolve_workspace_paths(&config, &env, "/irrelevant");

    assert_eq!(
        resolved.root,
        Some("/home/demo/code/my-project".to_string())
    );
}

#[test]
fn should_expand_bare_tilde_root_to_home_directory() {
    let config = Workspace {
        name: "demo".to_string(),
        root: Some("~".to_string()),
        ..Default::default()
    };
    let mut env = EnvMap::new();
    env.insert("HOME".to_string(), "/home/demo".to_string());

    let resolved = resolve_workspace_paths(&config, &env, "/irrelevant");

    assert_eq!(resolved.root, Some("/home/demo".to_string()));
}

#[test]
fn should_leave_absolute_root_unchanged() {
    let config = Workspace {
        name: "demo".to_string(),
        root: Some("/proj".to_string()),
        ..Default::default()
    };

    let resolved = resolve_workspace_paths(&config, &EnvMap::new(), "/irrelevant");

    assert_eq!(resolved.root, Some("/proj".to_string()));
}

#[test]
fn should_resolve_relative_root_against_given_cwd() {
    let config = Workspace {
        name: "demo".to_string(),
        root: Some("proj".to_string()),
        ..Default::default()
    };

    let resolved = resolve_workspace_paths(&config, &EnvMap::new(), "/home/demo");

    assert_eq!(resolved.root, Some("/home/demo/proj".to_string()));
}

#[test]
fn should_expand_tilde_in_tab_and_pane_cwd_without_forcing_them_absolute() {
    let config = Workspace {
        name: "demo".to_string(),
        root: Some("/proj".to_string()),
        tabs: vec![Tab {
            label: None,
            cwd: Some("~/logs".to_string()),
            panes: vec![
                Pane {
                    command: None,
                    cwd: Some("~".to_string()),
                    ..Default::default()
                },
                Pane {
                    command: None,
                    cwd: Some("./relative".to_string()),
                    ..Default::default()
                },
            ],
        }],
        ..Default::default()
    };
    let mut env = EnvMap::new();
    env.insert("HOME".to_string(), "/home/demo".to_string());

    let resolved = resolve_workspace_paths(&config, &env, "/irrelevant");

    assert_eq!(resolved.tabs[0].cwd, Some("/home/demo/logs".to_string()));
    assert_eq!(
        resolved.tabs[0].panes[0].cwd,
        Some("/home/demo".to_string())
    );
    assert_eq!(
        resolved.tabs[0].panes[1].cwd,
        Some("./relative".to_string())
    );
}

#[test]
fn should_default_root_to_invocation_cwd_when_root_is_absent() {
    let config = Workspace {
        name: "demo".to_string(),
        tabs: vec![Tab {
            label: None,
            cwd: Some("svc".to_string()),
            panes: vec![],
        }],
        ..Default::default()
    };

    let resolved =
        resolve_workspace_paths(&config, &EnvMap::new(), "/home/demo/project");

    assert_eq!(resolved.root, Some("/home/demo/project".to_string()));
    assert_eq!(resolved.tabs[0].cwd, Some("svc".to_string()));
}

#[test]
fn should_resolve_workspace_paths_without_mutating_the_input_workspace() {
    let ws = Workspace {
        name: "demo".to_string(),
        root: Some("~/code".to_string()),
        tabs: vec![Tab {
            cwd: Some("./src".to_string()),
            panes: vec![Pane {
                cwd: Some("./inner".to_string()),
                ..Default::default()
            }],
            ..Default::default()
        }],
        ..Default::default()
    };
    let snapshot = ws.clone();
    let mut env = EnvMap::new();
    env.insert("HOME".to_string(), "/home/demo".to_string());
    let resolved = resolve_workspace_paths(&ws, &env, "/cwd");
    assert_eq!(ws, snapshot, "input workspace must not be mutated");
    assert_eq!(resolved.root, Some("/home/demo/code".to_string()));
    assert_eq!(
        resolved.tabs[0].panes[0].cwd,
        Some("./inner".to_string())
    );
    assert_eq!(resolved.tabs[0].cwd, Some("./src".to_string()));
}

#[test]
fn should_resolve_each_workspace_root_independently_given_two_workspaces() {
    let file = SpreadFile {
        workspaces: vec![
            Workspace {
                name: "ws1".to_string(),
                root: Some("~/a".to_string()),
                ..Default::default()
            },
            Workspace {
                name: "ws2".to_string(),
                root: Some("proj".to_string()),
                ..Default::default()
            },
        ],
    };
    let mut env = EnvMap::new();
    env.insert("HOME".to_string(), "/home/demo".to_string());

    let resolved = resolve_paths(&file, &env, "/home/demo/base");

    assert_eq!(
        resolved.workspaces[0].root,
        Some("/home/demo/a".to_string())
    );
    assert_eq!(
        resolved.workspaces[1].root,
        Some("/home/demo/base/proj".to_string())
    );
}

#[test]
fn should_default_all_roots_to_invocation_cwd_when_multiple_workspaces_omit_root() {
    let file = SpreadFile {
        workspaces: vec![
            Workspace {
                name: "ws1".to_string(),
                ..Default::default()
            },
            Workspace {
                name: "ws2".to_string(),
                ..Default::default()
            },
        ],
    };

    let resolved = resolve_paths(&file, &EnvMap::new(), "/home/demo/project");

    assert_eq!(
        resolved.workspaces[0].root,
        Some("/home/demo/project".to_string())
    );
    assert_eq!(
        resolved.workspaces[1].root,
        Some("/home/demo/project".to_string())
    );
}

#[test]
fn should_return_plugin_config_yaml_when_it_exists() {
    let env = env_of(&[("HERDR_PLUGIN_CONFIG_DIR", "/plugin")]);
    let present = vec!["/plugin/config.yaml".to_string()];

    let resolved = resolve_config_path(None, &env, &present).unwrap();

    assert_eq!(resolved, "/plugin/config.yaml");
}

#[test]
fn should_return_plugin_config_yml_when_only_yml_exists() {
    let env = env_of(&[("HERDR_PLUGIN_CONFIG_DIR", "/plugin")]);
    let present = vec!["/plugin/config.yml".to_string()];

    let resolved = resolve_config_path(None, &env, &present).unwrap();

    assert_eq!(resolved, "/plugin/config.yml");
}

#[test]
fn should_return_xdg_config_yaml_when_configured() {
    let env = env_of(&[("XDG_CONFIG_HOME", "/xdg"), ("HOME", "/home/demo")]);
    let present = vec!["/xdg/herdr-spreader/config.yaml".to_string()];

    let resolved = resolve_config_path(None, &env, &present).unwrap();

    assert_eq!(resolved, "/xdg/herdr-spreader/config.yaml");
}

#[test]
fn should_fall_back_to_home_config_when_xdg_dir_has_no_yaml_or_yml() {
    let env = env_of(&[("XDG_CONFIG_HOME", "/xdg"), ("HOME", "/home/demo")]);
    let present = vec!["/home/demo/.config/herdr-spreader/config.yaml".to_string()];

    let resolved = resolve_config_path(None, &env, &present).unwrap();

    assert_eq!(resolved, "/home/demo/.config/herdr-spreader/config.yaml");
}

#[test]
fn should_return_home_config_when_xdg_config_home_is_not_set() {
    let env = env_of(&[("HOME", "/home/demo")]);
    let present = vec!["/home/demo/.config/herdr-spreader/config.yaml".to_string()];

    let resolved = resolve_config_path(None, &env, &present).unwrap();

    assert_eq!(resolved, "/home/demo/.config/herdr-spreader/config.yaml");
}

#[test]
fn should_return_not_found_error_when_no_config_file_exists_in_any_location() {
    let env = env_of(&[("HOME", "/home/demo")]);

    let result = resolve_config_path(None, &env, &vec![]);

    assert!(matches!(result, Err(ConfigError::NotFound)));
}

#[test]
fn should_return_first_existing_candidate_from_a_list() {
    let present = vec!["/tmp/config.yaml".to_string()];
    let missing = "/tmp/nonexistent_dir/config.yaml".to_string();
    let found = find_first_existing(
        &vec![
            missing.clone(),
            "/tmp/config.yaml".to_string(),
            "/tmp/config.yml".to_string(),
        ],
        &present,
    );
    assert_eq!(found, Some("/tmp/config.yaml".to_string()));
    let none = find_first_existing(
        &vec![missing.clone(), "/tmp/also-missing.yaml".to_string()],
        &present,
    );
    assert!(none.is_none());
}

#[test]
fn io_error_names_the_file_and_the_reason() {
    let err = ConfigError::Io {
        path: "/no/such.yaml".to_string(),
        message: "No such file or directory (os error 2)".to_string(),
    };
    assert_eq!(
        err.to_string(),
        "failed to read config file /no/such.yaml: No such file or directory (os error 2)"
    );
}

#[test]
fn candidates_without_home_are_relative() {
    let paths = candidate_paths(&EnvMap::new());
    assert_eq!(
        paths,
        vec![
            ".config/herdr-spreader/config.yaml",
            ".config/herdr-spreader/config.yml"
        ]
    );
}

#[test]
fn tilde_expands_only_as_a_whole_segment() {
    let env = env_of(&[("HOME", "/home/demo")]);
    assert_eq!(expand_tilde("~", &env), "/home/demo");
    assert_eq!(expand_tilde("~/a", &env), "/home/demo/a");
    assert_eq!(expand_tilde("~/", &env), "/home/demo/");
    assert_eq!(expand_tilde("~other/a", &env), "~other/a");
    assert_eq!(expand_tilde("a/~", &env), "a/~");
    assert_eq!(expand_tilde("~//a", &env), "/a");
    assert_eq!(expand_tilde("~/a", &EnvMap::new()), "a");
}

#[test]
fn environment_keeps_one_value_per_name_in_order() {
    let mut env = env_of(&[("B", "1"), ("A", "2"), ("C", "3")]);
    env.insert("B".to_string(), "4".to_string());
    assert_eq!(env.len(), 3);
    let entries: Vec<(&str, &str)> = (0..env.len())
        .map(|i| (env.name_at(i), env.value_at(i)))
        .collect();
    assert_eq!(entries, vec![("A", "2"), ("B", "4"), ("C", "3")]);
    assert_eq!(env.get("B"), Some("4"));
    assert_eq!(env.get("D"), None);
}

#[test]
fn ratios_must_lie_between_zero_and_one() {
    for ratio in [0.5, 0.3, 0.1, 0.999, 0.0001, 1e-7] {
        assert!(!Ratio::new(&ratio.to_string()).unwrap().is_refused(), "{ratio}");
    }
    for ratio in [0.0, -0.0, 1.0, 1.5, 2.0, -0.5, -3.0, 10.25, 1e300] {
        assert!(Ratio::new(&ratio.to_string()).unwrap().is_refused(), "{ratio}");
    }
    assert!(Ratio::new(&f64::INFINITY.to_string()).unwrap().is_refused());
    assert!(Ratio::new(&f64::NEG_INFINITY.to_string()).unwrap().is_refused());
    assert!(!Ratio::new(&f64::NAN.to_string()).unwrap().is_refused());
}

#[test]
fn ratios_hold_the_shortest_text_of_a_number() {
    let numbers = [
        0.5, 0.0, -0.0, 1.0, -3.0, 10.25, 1e300, 1e-300, -1e-7, 123456.789, f64::MAX, f64::MIN,
        f64::MIN_POSITIVE, f64::EPSILON, f64::NAN, f64::INFINITY, f64::NEG_INFINITY,
    ];
    for number in numbers {
        let text = number.to_string();
        assert_eq!(Ratio::new(&text).unwrap().decimal(), text);
    }
    let others = [
        "", "-", ".", "banana", ".5", "5.", "05", "00", "0.50", "1.0", "+1", "1e5", "--1", "- 1",
        "0.5 ", "1.2.3", "0.-5", "nan", "Inf", "-NaN", "+inf", "0x1", "\u{0663}",
    ];
    for text in others {
        assert_eq!(Ratio::new(text), None, "{text}");
    }
}

#[test]
fn auto_splits_along_the_longer_side() {
    let auto = SplitDirection::Auto;
    assert_eq!(auto.for_pane(80, 120, None), SplitDirection::Down);
    assert_eq!(auto.for_pane(160, 80, None), SplitDirection::Right);
    assert_eq!(auto.for_pane(50, 50, None), SplitDirection::Right);
    let cell = Some(CellMetrics {
        width: 8,
        height: 20,
    });
    assert_eq!(auto.for_pane(80, 40, cell), SplitDirection::Down);
    assert_eq!(auto.for_pane(120, 40, cell), SplitDirection::Right);
    let huge = Some(CellMetrics {
        width: u64::MAX,
        height: u64::MAX,
    });
    assert_eq!(
        auto.for_pane(u64::MAX, u64::MAX, huge),
        SplitDirection::Right
    );
    assert_eq!(
        SplitDirection::Right.for_pane(1, 100, None),
        SplitDirection::Right
    );
    assert_eq!(
        SplitDirection::Down.for_pane(100, 1, None),
        SplitDirection::Down
    );
    assert_eq!(SplitDirection::default(), SplitDirection::Right);
}

#[test]
fn cell_metrics_need_a_pixel_per_cell() {
    assert_eq!(
        cell_metrics(80, 24, 640, 480),
        Some(CellMetrics {
            width: 8,
            height: 20
        })
    );
    assert_eq!(cell_metrics(80, 24, 0, 0), None);
    assert_eq!(cell_metrics(0, 24, 640, 480), None);
    assert_eq!(cell_metrics(80, 0, 640, 480), None);
    assert_eq!(cell_metrics(80, 24, 79, 480), None);
}

#[test]
fn resolved_roots_are_absolute_whatever_the_layout_says() {
    let env = env_of(&[("HOME", "/home/demo")]);
    let file = SpreadFile {
        workspaces: vec![
            Workspace::default(),
            Workspace {
                root: Some("~".to_string()),
                ..Default::default()
            },
            Workspace {
                root: Some("../up".to_string()),
                ..Default::default()
            },
        ],
    };
    let resolved = resolve_paths(&file, &env, "/work");
    let roots: Vec<&str> = resolved
        .workspaces
        .iter()
        .map(|ws| ws.root.as_deref().unwrap())
        .collect();
    assert_eq!(roots, vec!["/work", "/home/demo", "/work/../up"]);
}
