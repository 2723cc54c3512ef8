use herdr_spreader::backend::{SplitOpts, TabOpts, WorkspaceOpts};
use herdr_spreader::config::{Pane, Ratio, SplitDirection, SpreadFile, Tab, WaitFor, Workspace};
use herdr_spreader::engine;
use herdr_spreader::engine::{BackendOp, PaneHandle};
use herdr_spreader::env::EnvMap;

#[test]
fn should_render_minimal_single_tab_workspace_as_create_workspace_then_run() {
    let ws = Workspace {
        name: "demo".to_string(),
        tabs: vec![Tab {
            panes: vec![Pane {
                command: Some("nvim".to_string()),
                ..Default::default()
            }],
            ..Default::default()
        }],
        ..Default::default()
    };

    let plan = engine::plan_workspace(&ws);

    assert_eq!(
        plan,
        vec![
            BackendOp::CreateWorkspace(WorkspaceOpts {
                label: "demo".to_string(),
                cwd: None,
                env: EnvMap::new(),
                focus: false,
            }),
            BackendOp::Run {
                pane: PaneHandle::TabRoot(0),
                command: "nvim".to_string(),
            },
        ]
    );
}

#[test]
fn should_emit_rename_first_tab_op_when_workspace_first_tab_has_a_label() {
    let ws = Workspace {
        name: "demo".to_string(),
        tabs: vec![Tab {
            label: Some("editor".to_string()),
            panes: vec![Pane {
                command: Some("nvim".to_string()),
                ..Default::default()
            }],
            ..Default::default()
        }],
        ..Default::default()
    };

    let plan = engine::plan_workspace(&ws);

    assert_eq!(
        plan,
        vec![
            BackendOp::CreateWorkspace(WorkspaceOpts {
                label: "demo".to_string(),
                cwd: None,
                env: EnvMap::new(),
                focus: false,
            }),
            BackendOp::RenameFirstTab {
                label: "editor".to_string(),
            },
            BackendOp::Run {
                pane: PaneHandle::TabRoot(0),
                command: "nvim".to_string(),
            },
        ]
    );
}

#[test]
fn should_emit_create_tab_op_for_second_tab_threading_tab_index_and_resolved_cwd() {
    let ws = Workspace {
        name: "demo".to_string(),
        root: Some("/proj".to_string()),
        tabs: vec![
            Tab {
                panes: vec![Pane {
                    command: None,
                    ..Default::default()
                }],
                ..Default::default()
            },
            Tab {
                label: Some("server".to_string()),
                cwd: Some("./svc".to_string()),
                panes: vec![Pane {
                    command: Some("cargo run".to_string()),
                    ..Default::default()
                }],
            },
        ],
        ..Default::default()
    };

    let plan = engine::plan_workspace(&ws);

    assert_eq!(
        plan,
        vec![
            BackendOp::CreateWorkspace(WorkspaceOpts {
                label: "demo".to_string(),
                cwd: Some("/proj".to_string()),
                env: EnvMap::new(),
                focus: false,
            }),
            BackendOp::CreateTab {
                index: 1,
                opts: TabOpts {
                    label: Some("server".to_string()),
                    cwd: Some("/proj/svc".to_string()),
                    focus: false,
                },
            },
            BackendOp::Run {
                pane: PaneHandle::TabRoot(1),
                command: "cargo run".to_string(),
            },
        ]
    );
}

#[test]
fn should_emit_split_pane_op_with_direction_ratio_and_handles_for_multi_pane_tab() {
    let ws = Workspace {
        name: "demo".to_string(),
        tabs: vec![Tab {
            label: None,
            panes: vec![
                Pane {
                    command: None,
                    ..Default::default()
                },
                Pane {
                    command: Some("watch".to_string()),
                    split: SplitDirection::Down,
                    ratio: Ratio::new("0.3"),
                    ..Default::default()
                },
                Pane {
                    command: Some("logs".to_string()),
                    ..Default::default()
                },
            ],
            ..Default::default()
        }],
        ..Default::default()
    };

    let plan = engine::plan_workspace(&ws);

    assert_eq!(
        plan,
        vec![
            BackendOp::CreateWorkspace(WorkspaceOpts {
                label: "demo".to_string(),
                cwd: None,
                env: EnvMap::new(),
                focus: false,
            }),
            BackendOp::SplitPane {
                from: PaneHandle::TabRoot(0),
                into: PaneHandle::Split(1),
                opts: SplitOpts {
                    direction: SplitDirection::Down,
                    ratio: Ratio::new("0.3"),
                    cwd: None,
                    env: EnvMap::new(),
                    focus: false,
                },
            },
            BackendOp::Run {
                pane: PaneHandle::Split(1),
                command: "watch".to_string(),
            },
            BackendOp::SplitPane {
                from: PaneHandle::Split(1),
                into: PaneHandle::Split(2),
                opts: SplitOpts {
                    direction: SplitDirection::Right,
                    ratio: None,
                    cwd: None,
                    env: EnvMap::new(),
                    focus: false,
                },
            },
            BackendOp::Run {
                pane: PaneHandle::Split(2),
                command: "logs".to_string(),
            },
        ]
    );
}

#[test]
fn should_thread_pane_cwd_and_env_into_split_opts() {
    let mut pane_env = EnvMap::new();
    pane_env.insert("FOO".to_string(), "bar".to_string());

    let ws = Workspace {
        name: "demo".to_string(),
        root: Some("/proj".to_string()),
        tabs: vec![Tab {
            label: None,
            panes: vec![
                Pane {
                    command: None,
                    ..Default::default()
                },
                Pane {
                    command: Some("watch".to_string()),
                    cwd: Some("./sub".to_string()),
                    env: pane_env.clone(),
                    ..Default::default()
                },
            ],
            ..Default::default()
        }],
        ..Default::default()
    };

    let plan = engine::plan_workspace(&ws);

    assert_eq!(
        plan,
        vec![
            BackendOp::CreateWorkspace(WorkspaceOpts {
                label: "demo".to_string(),
                cwd: Some("/proj".to_string()),
                env: EnvMap::new(),
                focus: false,
            }),
            BackendOp::SplitPane {
                from: PaneHandle::TabRoot(0),
                into: PaneHandle::Split(1),
                opts: SplitOpts {
                    direction: SplitDirection::Right,
                    ratio: None,
                    cwd: Some("/proj/sub".to_string()),
                    env: pane_env,
                    focus: false,
                },
            },
            BackendOp::Run {
                pane: PaneHandle::Split(1),
                command: "watch".to_string(),
            },
        ]
    );
}

#[test]
fn should_emit_wait_output_op_after_run_op_when_pane_has_wait_for() {
    let ws = Workspace {
        name: "demo".to_string(),
        tabs: vec![Tab {
            label: None,
            panes: vec![
                Pane {
                    command: Some("watch".to_string()),
                    wait_for: Some(WaitFor {
                        pattern: "ready".to_string(),
                        timeout_ms: None,
                    }),
                    ..Default::default()
                },
                Pane {
                    command: Some("logs".to_string()),
                    ..Default::default()
                },
            ],
            ..Default::default()
        }],
        ..Default::default()
    };

    let plan = engine::plan_workspace(&ws);

    assert_eq!(
        plan,
        vec![
            BackendOp::CreateWorkspace(WorkspaceOpts {
                label: "demo".to_string(),
                cwd: None,
                env: EnvMap::new(),
                focus: false,
            }),
            BackendOp::Run {
                pane: PaneHandle::TabRoot(0),
                command: "watch".to_string(),
            },
            BackendOp::WaitOutput {
                pane: PaneHandle::TabRoot(0),
                wait: WaitFor {
                    pattern: "ready".to_string(),
                    timeout_ms: None,
                },
            },
            BackendOp::SplitPane {
                from: PaneHandle::TabRoot(0),
                into: PaneHandle::Split(1),
                opts: SplitOpts {
                    direction: SplitDirection::Right,
                    ratio: None,
                    cwd: None,
                    env: EnvMap::new(),
                    focus: false,
                },
            },
            BackendOp::Run {
                pane: PaneHandle::Split(1),
                command: "logs".to_string(),
            },
        ]
    );
}

#[test]
fn should_wrap_first_pane_command_with_cd_and_env_export_given_overrides() {
    let mut pane_env = EnvMap::new();
    pane_env.insert("FOO".to_string(), "bar".to_string());

    let ws = Workspace {
        name: "demo".to_string(),
        root: Some("/proj".to_string()),
        tabs: vec![Tab {
            label: None,
            cwd: Some("./sub".to_string()),
            panes: vec![Pane {
                command: Some("nvim".to_string()),
                cwd: Some("./inner".to_string()),
                env: pane_env,
                ..Default::default()
            }],
        }],
        ..Default::default()
    };

    let plan = engine::plan_workspace(&ws);

    assert_eq!(
        plan,
        vec![
            BackendOp::CreateWorkspace(WorkspaceOpts {
                label: "demo".to_string(),
                cwd: Some("/proj".to_string()),
                env: EnvMap::new(),
                focus: false,
            }),
            BackendOp::Run {
                pane: PaneHandle::TabRoot(0),
                command: "cd '/proj/sub/inner' && export FOO='bar' && nvim".to_string(),
            },
        ]
    );
}

#[test]
fn should_emit_run_op_with_bare_cd_and_export_when_first_pane_has_cwd_env_but_no_command() {
    let mut pane_env = EnvMap::new();
    pane_env.insert("FOO".to_string(), "bar".to_string());

    let ws = Workspace {
        name: "demo".to_string(),
        root: Some("/proj".to_string()),
        tabs: vec![Tab {
            label: None,
            cwd: Some("./sub".to_string()),
            panes: vec![Pane {
                command: None,
                env: pane_env,
                ..Default::default()
            }],
        }],
        ..Default::default()
    };

    let plan = engine::plan_workspace(&ws);

    assert_eq!(
        plan,
        vec![
            BackendOp::CreateWorkspace(WorkspaceOpts {
                label: "demo".to_string(),
                cwd: Some("/proj".to_string()),
                env: EnvMap::new(),
                focus: false,
            }),
            BackendOp::Run {
                pane: PaneHandle::TabRoot(0),
                command: "cd '/proj/sub' && export FOO='bar'".to_string(),
            },
        ]
    );
}

#[test]
fn should_emit_no_run_op_when_first_pane_has_no_command_cwd_or_env() {
    let ws = Workspace {
        name: "demo".to_string(),
        tabs: vec![Tab {
            label: None,
            panes: vec![Pane {
                command: None,
                ..Default::default()
            }],
            ..Default::default()
        }],
        ..Default::default()
    };

    let plan = engine::plan_workspace(&ws);

    assert_eq!(
        plan,
        vec![BackendOp::CreateWorkspace(WorkspaceOpts {
            label: "demo".to_string(),
            cwd: None,
            env: EnvMap::new(),
            focus: false,
        })]
    );
}

#[test]
fn should_resolve_tab_cwd_against_root_in_create_tab_opts_for_second_tab() {
    let ws = Workspace {
        name: "demo".to_string(),
        root: Some("/proj".to_string()),
        tabs: vec![
            Tab {
                panes: vec![Pane {
                    command: None,
                    ..Default::default()
                }],
                ..Default::default()
            },
            Tab {
                label: Some("server".to_string()),
                cwd: Some("./svc".to_string()),
                panes: vec![Pane {
                    command: Some("cargo run".to_string()),
                    ..Default::default()
                }],
            },
        ],
        ..Default::default()
    };

    let plan = engine::plan_workspace(&ws);

    assert_eq!(
        plan,
        vec![
            BackendOp::CreateWorkspace(WorkspaceOpts {
                label: "demo".to_string(),
                cwd: Some("/proj".to_string()),
                env: EnvMap::new(),
                focus: false,
            }),
            BackendOp::CreateTab {
                index: 1,
                opts: TabOpts {
                    label: Some("server".to_string()),
                    cwd: Some("/proj/svc".to_string()),
                    focus: false,
                },
            },
            BackendOp::Run {
                pane: PaneHandle::TabRoot(1),
                command: "cargo run".to_string(),
            },
        ]
    );
}

#[test]
fn should_pass_focus_true_to_create_tab_opts_when_pane_in_non_first_tab_has_focus() {
    let ws = Workspace {
        name: "demo".to_string(),
        tabs: vec![
            Tab {
                panes: vec![Pane {
                    command: None,
                    ..Default::default()
                }],
                ..Default::default()
            },
            Tab {
                label: Some("server".to_string()),
                panes: vec![Pane {
                    command: Some("cargo run".to_string()),
                    focus: true,
                    ..Default::default()
                }],
                ..Default::default()
            },
        ],
        ..Default::default()
    };

    let plan = engine::plan_workspace(&ws);

    assert_eq!(
        plan,
        vec![
            BackendOp::CreateWorkspace(WorkspaceOpts {
                label: "demo".to_string(),
                cwd: None,
                env: EnvMap::new(),
                focus: false,
            }),
            BackendOp::CreateTab {
                index: 1,
                opts: TabOpts {
                    label: Some("server".to_string()),
                    cwd: None,
                    focus: true,
                },
            },
            BackendOp::Run {
                pane: PaneHandle::TabRoot(1),
                command: "cargo run".to_string(),
            },
        ]
    );
}

#[test]
fn should_pass_no_focus_when_neither_pane_nor_workspace_has_focus() {
    let ws = Workspace {
        name: "demo".to_string(),
        tabs: vec![Tab {
            label: None,
            panes: vec![
                Pane {
                    command: Some("nvim".to_string()),
                    ..Default::default()
                },
                Pane {
                    command: Some("watch".to_string()),
                    ..Default::default()
                },
            ],
            ..Default::default()
        }],
        ..Default::default()
    };

    let plan = engine::plan_workspace(&ws);

    assert_eq!(
        plan,
        vec![
            BackendOp::CreateWorkspace(WorkspaceOpts {
                label: "demo".to_string(),
                cwd: None,
                env: EnvMap::new(),
                focus: false,
            }),
            BackendOp::Run {
                pane: PaneHandle::TabRoot(0),
                command: "nvim".to_string(),
            },
            BackendOp::SplitPane {
                from: PaneHandle::TabRoot(0),
                into: PaneHandle::Split(1),
                opts: SplitOpts {
                    direction: SplitDirection::Right,
                    ratio: None,
                    cwd: None,
                    env: EnvMap::new(),
                    focus: false,
                },
            },
            BackendOp::Run {
                pane: PaneHandle::Split(1),
                command: "watch".to_string(),
            },
        ]
    );
}

#[test]
fn should_emit_one_create_workspace_per_workspace_with_no_focus_for_unfocused_workspaces() {
    let ws1 = Workspace {
        name: "alpha".to_string(),
        tabs: vec![Tab {
            panes: vec![Pane {
                command: Some("nvim".to_string()),
                ..Default::default()
            }],
            ..Default::default()
        }],
        ..Default::default()
    };
    let ws2 = Workspace {
        name: "beta".to_string(),
        tabs: vec![Tab {
            panes: vec![Pane {
                command: Some("cargo run".to_string()),
                ..Default::default()
            }],
            ..Default::default()
        }],
        ..Default::default()
    };
    let file = SpreadFile {
        workspaces: vec![ws1, ws2],
    };

    let plan = engine::plan_file(&file);

    assert_eq!(
        plan,
        vec![
            BackendOp::CreateWorkspace(WorkspaceOpts {
                label: "alpha".to_string(),
                cwd: None,
                env: EnvMap::new(),
                focus: false,
            }),
            BackendOp::Run {
                pane: PaneHandle::TabRoot(0),
                command: "nvim".to_string(),
            },
            BackendOp::CreateWorkspace(WorkspaceOpts {
                label: "beta".to_string(),
                cwd: None,
                env: EnvMap::new(),
                focus: false,
            }),
            BackendOp::Run {
                pane: PaneHandle::TabRoot(0),
                command: "cargo run".to_string(),
            },
        ]
    );
}

#[test]
fn should_or_workspace_focus_and_first_pane_focus_into_create_workspace_focus() {
    let ws1 = Workspace {
        name: "alpha".to_string(),
        tabs: vec![Tab {
            panes: vec![Pane {
                command: Some("nvim".to_string()),
                ..Default::default()
            }],
            ..Default::default()
        }],
        ..Default::default()
    };
    let ws2 = Workspace {
        name: "beta".to_string(),
        focus: true,
        tabs: vec![Tab {
            panes: vec![
                Pane {
                    command: None,
                    ..Default::default()
                },
                Pane {
                    command: Some("cargo run".to_string()),
                    focus: true,
                    ..Default::default()
                },
            ],
            ..Default::default()
        }],
        ..Default::default()
    };
    let file = SpreadFile {
        workspaces: vec![ws1, ws2],
    };

    let plan = engine::plan_file(&file);

    assert_eq!(
        plan,
        vec![
            BackendOp::CreateWorkspace(WorkspaceOpts {
                label: "alpha".to_string(),
                cwd: None,
                env: EnvMap::new(),
                focus: false,
            }),
            BackendOp::Run {
                pane: PaneHandle::TabRoot(0),
                command: "nvim".to_string(),
            },
            BackendOp::CreateWorkspace(WorkspaceOpts {
                label: "beta".to_string(),
                cwd: None,
                env: EnvMap::new(),
                focus: true,
            }),
            BackendOp::SplitPane {
                from: PaneHandle::TabRoot(0),
                into: PaneHandle::Split(1),
                opts: SplitOpts {
                    direction: SplitDirection::Right,
                    ratio: None,
                    cwd: None,
                    env: EnvMap::new(),
                    focus: true,
                },
            },
            BackendOp::Run {
                pane: PaneHandle::Split(1),
                command: "cargo run".to_string(),
            },
        ]
    );
}

#[test]
fn should_emit_focus_true_on_create_workspace_for_every_workspace_with_focus_true() {
    let ws1 = Workspace {
        name: "alpha".to_string(),
        focus: true,
        tabs: vec![Tab {
            panes: vec![Pane {
                command: Some("nvim".to_string()),
                ..Default::default()
            }],
            ..Default::default()
        }],
        ..Default::default()
    };
    let ws2 = Workspace {
        name: "beta".to_string(),
        tabs: vec![Tab {
            panes: vec![Pane {
                command: Some("cargo run".to_string()),
                ..Default::default()
            }],
            ..Default::default()
        }],
        ..Default::default()
    };
    let ws3 = Workspace {
        name: "gamma".to_string(),
        focus: true,
        tabs: vec![Tab {
            panes: vec![Pane {
                command: Some("logs".to_string()),
                ..Default::default()
            }],
            ..Default::default()
        }],
        ..Default::default()
    };
    let file = SpreadFile {
        workspaces: vec![ws1, ws2, ws3],
    };

    let plan = engine::plan_file(&file);

    assert_eq!(
        plan,
        vec![
            BackendOp::CreateWorkspace(WorkspaceOpts {
                label: "alpha".to_string(),
                cwd: None,
                env: EnvMap::new(),
                focus: true,
            }),
            BackendOp::Run {
                pane: PaneHandle::TabRoot(0),
                command: "nvim".to_string(),
            },
            BackendOp::CreateWorkspace(WorkspaceOpts {
                label: "beta".to_string(),
                cwd: None,
                env: EnvMap::new(),
                focus: false,
            }),
            BackendOp::Run {
                pane: PaneHandle::TabRoot(0),
                command: "cargo run".to_string(),
            },
            BackendOp::CreateWorkspace(WorkspaceOpts {
                label: "gamma".to_string(),
                cwd: None,
                env: EnvMap::new(),
                focus: true,
            }),
            BackendOp::Run {
                pane: PaneHandle::TabRoot(0),
                command: "logs".to_string(),
            },
        ]
    );
}

#[test]
fn should_pass_focus_true_to_split_pane_opts_when_split_pane_has_focus() {
    let ws = Workspace {
        name: "demo".to_string(),
        tabs: vec![Tab {
            label: Some("editor".to_string()),
            panes: vec![
                Pane {
                    command: Some("nvim".to_string()),
                    ..Default::default()
                },
                Pane {
                    command: Some("lazygit".to_string()),
                    split: SplitDirection::Right,
                    focus: true,
                    ..Default::default()
                },
            ],
            ..Default::default()
        }],
        ..Default::default()
    };

    let plan = engine::plan_workspace(&ws);

    assert_eq!(
        plan,
        vec![
            BackendOp::CreateWorkspace(WorkspaceOpts {
                label: "demo".to_string(),
                cwd: None,
                env: EnvMap::new(),
                focus: false,
            }),
            BackendOp::RenameFirstTab {
                label: "editor".to_string(),
            },
            BackendOp::Run {
                pane: PaneHandle::TabRoot(0),
                command: "nvim".to_string(),
            },
            BackendOp::SplitPane {
                from: PaneHandle::TabRoot(0),
                into: PaneHandle::Split(1),
                opts: SplitOpts {
                    direction: SplitDirection::Right,
                    ratio: None,
                    cwd: None,
                    env: EnvMap::new(),
                    focus: true,
                },
            },
            BackendOp::Run {
                pane: PaneHandle::Split(1),
                command: "lazygit".to_string(),
            },
        ]
    );
}

#[allow(clippy::too_many_lines)]
#[test]
fn should_assign_distinct_split_handles_to_each_split_within_a_workspace() {
    let ws = Workspace {
        name: "demo".to_string(),
        tabs: vec![
            Tab {
                panes: vec![
                    Pane {
                        command: None,
                        ..Default::default()
                    },
                    Pane {
                        command: Some("top".to_string()),
                        ..Default::default()
                    },
                    Pane {
                        command: Some("bottom".to_string()),
                        split: SplitDirection::Down,
                        ..Default::default()
                    },
                ],
                ..Default::default()
            },
            Tab {
                panes: vec![
                    Pane {
                        command: None,
                        ..Default::default()
                    },
                    Pane {
                        command: Some("side".to_string()),
                        ..Default::default()
                    },
                ],
                ..Default::default()
            },
        ],
        ..Default::default()
    };

    let plan = engine::plan_workspace(&ws);

    assert_eq!(
        plan,
        vec![
            BackendOp::CreateWorkspace(WorkspaceOpts {
                label: "demo".to_string(),
                cwd: None,
                env: EnvMap::new(),
                focus: false,
            }),
            BackendOp::SplitPane {
                from: PaneHandle::TabRoot(0),
                into: PaneHandle::Split(1),
                opts: SplitOpts {
                    direction: SplitDirection::Right,
                    ratio: None,
                    cwd: None,
                    env: EnvMap::new(),
                    focus: false,
                },
            },
            BackendOp::Run {
                pane: PaneHandle::Split(1),
                command: "top".to_string(),
            },
            BackendOp::SplitPane {
                from: PaneHandle::Split(1),
                into: PaneHandle::Split(2),
                opts: SplitOpts {
                    direction: SplitDirection::Down,
                    ratio: None,
                    cwd: None,
                    env: EnvMap::new(),
                    focus: false,
                },
            },
            BackendOp::Run {
                pane: PaneHandle::Split(2),
                command: "bottom".to_string(),
            },
            BackendOp::CreateTab {
                index: 1,
                opts: TabOpts {
                    label: None,
                    cwd: None,
                    focus: false,
                },
            },
            BackendOp::SplitPane {
                from: PaneHandle::TabRoot(1),
                into: PaneHandle::Split(3),
                opts: SplitOpts {
                    direction: SplitDirection::Right,
                    ratio: None,
                    cwd: None,
                    env: EnvMap::new(),
                    focus: false,
                },
            },
            BackendOp::Run {
                pane: PaneHandle::Split(3),
                command: "side".to_string(),
            },
        ]
    );
}

#[test]
fn should_split_two_panes_from_the_same_source_pane_given_from_references() {
    // The motivating branching layout: editor filling the left half,
    // agent full-height on the right, git stacked under the editor.
    let ws = Workspace {
        name: "ws".to_string(),
        tabs: vec![Tab {
            label: Some("main".to_string()),
            panes: vec![
                Pane {
                    id: Some("editor".to_string()),
                    command: Some("nvim".to_string()),
                    focus: true,
                    ..Default::default()
                },
                Pane {
                    id: Some("agent".to_string()),
                    from: Some("editor".to_string()),
                    split: SplitDirection::Right,
                    ratio: Ratio::new("0.5"),
                    command: Some("htop".to_string()),
                    ..Default::default()
                },
                Pane {
                    id: Some("git".to_string()),
                    from: Some("editor".to_string()),
                    split: SplitDirection::Down,
                    ratio: Ratio::new("0.6"),
                    command: Some("lazygit".to_string()),
                    ..Default::default()
                },
            ],
            ..Default::default()
        }],
        ..Default::default()
    };

    let plan = engine::plan_workspace(&ws);

    assert_eq!(
        plan,
        vec![
            BackendOp::CreateWorkspace(WorkspaceOpts {
                label: "ws".to_string(),
                cwd: None,
                env: EnvMap::new(),
                focus: true,
            }),
            BackendOp::RenameFirstTab {
                label: "main".to_string(),
            },
            BackendOp::Run {
                pane: PaneHandle::TabRoot(0),
                command: "nvim".to_string(),
            },
            BackendOp::SplitPane {
                from: PaneHandle::TabRoot(0),
                into: PaneHandle::Split(1),
                opts: SplitOpts {
                    direction: SplitDirection::Right,
                    ratio: Ratio::new("0.5"),
                    cwd: None,
                    env: EnvMap::new(),
                    focus: false,
                },
            },
            BackendOp::Run {
                pane: PaneHandle::Split(1),
                command: "htop".to_string(),
            },
            BackendOp::SplitPane {
                from: PaneHandle::TabRoot(0),
                into: PaneHandle::Split(2),
                opts: SplitOpts {
                    direction: SplitDirection::Down,
                    ratio: Ratio::new("0.6"),
                    cwd: None,
                    env: EnvMap::new(),
                    focus: false,
                },
            },
            BackendOp::Run {
                pane: PaneHandle::Split(2),
                command: "lazygit".to_string(),
            },
        ]
    );
}

#[test]
fn should_chain_from_previous_pane_when_from_is_omitted_after_a_from_split() {
    let ws = Workspace {
        name: "demo".to_string(),
        tabs: vec![Tab {
            panes: vec![
                Pane {
                    id: Some("a".to_string()),
                    ..Default::default()
                },
                Pane {
                    from: Some("a".to_string()),
                    ..Default::default()
                },
                Pane {
                    command: Some("logs".to_string()),
                    ..Default::default()
                },
            ],
            ..Default::default()
        }],
        ..Default::default()
    };

    let plan = engine::plan_workspace(&ws);

    // The third pane has no `from`, so it chains from the previous
    // pane in the list — the Split(1) created right above it.
    assert!(plan.contains(&BackendOp::SplitPane {
        from: PaneHandle::Split(1),
        into: PaneHandle::Split(2),
        opts: SplitOpts::default(),
    }));
}

#[test]
fn should_resolve_from_against_ids_of_the_same_tab_when_tabs_reuse_an_id() {
    let branching_panes = |cmd: &str| {
        vec![
            Pane {
                id: Some("editor".to_string()),
                ..Default::default()
            },
            Pane {
                from: Some("editor".to_string()),
                command: Some(cmd.to_string()),
                ..Default::default()
            },
        ]
    };
    let ws = Workspace {
        name: "demo".to_string(),
        tabs: vec![
            Tab {
                panes: branching_panes("one"),
                ..Default::default()
            },
            Tab {
                panes: branching_panes("two"),
                ..Default::default()
            },
        ],
        ..Default::default()
    };

    let plan = engine::plan_workspace(&ws);

    // Each tab's `from: editor` resolves to that tab's own root pane.
    assert!(plan.contains(&BackendOp::SplitPane {
        from: PaneHandle::TabRoot(0),
        into: PaneHandle::Split(1),
        opts: SplitOpts::default(),
    }));
    assert!(plan.contains(&BackendOp::SplitPane {
        from: PaneHandle::TabRoot(1),
        into: PaneHandle::Split(2),
        opts: SplitOpts::default(),
    }));
}

#[test]
fn should_emit_only_create_workspace_when_workspace_has_no_tabs() {
    let ws = Workspace {
        name: "demo".to_string(),
        ..Default::default()
    };

    let plan = engine::plan_workspace(&ws);

    assert_eq!(
        plan,
        vec![BackendOp::CreateWorkspace(WorkspaceOpts {
            label: "demo".to_string(),
            cwd: None,
            env: EnvMap::new(),
            focus: false,
        })]
    );
}

#[test]
fn a_layout_with_an_unknown_source_cannot_be_planned() {
    let with_source = |from: &str| SpreadFile {
        workspaces: vec![Workspace {
            name: "demo".to_string(),
            tabs: vec![Tab {
                panes: vec![
                    Pane {
                        id: Some("first".to_string()),
                        ..Default::default()
                    },
                    Pane {
                        from: Some(from.to_string()),
                        ..Default::default()
                    },
                ],
                ..Default::default()
            }],
            ..Default::default()
        }],
    };
    assert!(!engine::can_plan(&with_source("missing")));
    assert!(engine::can_plan(&with_source("first")));
    assert!(engine::can_plan(&SpreadFile { workspaces: vec![] }));
}

#[test]
fn an_absolute_directory_replaces_what_is_above() {
    let resolve = |tab: Option<&str>, pane: Option<&str>| engine::resolve_cwd(Some("/proj"), tab, pane);
    assert_eq!(resolve(None, None), Some("/proj".to_string()));
    assert_eq!(resolve(Some("a"), Some("./b")), Some("/proj/a/b".to_string()));
    assert_eq!(resolve(Some("/x"), Some("b")), Some("/x/b".to_string()));
    assert_eq!(resolve(Some("a"), Some("/y/./z")), Some("/y/z".to_string()));
    assert_eq!(resolve(Some(".."), Some("b")), Some("/proj/../b".to_string()));
    assert_eq!(engine::resolve_cwd(None, None, None), None);
    assert_eq!(
        engine::combine_cwd(None, Some("./b")),
        Some("b".to_string())
    );
}

#[test]
fn the_line_of_a_first_pane_prepares_its_shell() {
    let mut env = EnvMap::new();
    env.insert("B".to_string(), "it's".to_string());
    env.insert("A".to_string(), "1".to_string());
    assert_eq!(
        engine::cwd_env_prefix(Some("/a b"), &env).as_deref(),
        Some("cd '/a b' && export A='1' && export B='it'\\''s'")
    );
    assert_eq!(engine::cwd_env_prefix(None, &EnvMap::new()), None);
    assert_eq!(
        engine::wrap_command_with_cwd_and_env("ls", None, &EnvMap::new()),
        "ls"
    );
    assert_eq!(
        engine::wrap_command_with_cwd_and_env("ls", Some("/x"), &EnvMap::new()),
        "cd '/x' && ls"
    );
}

#[test]
fn plans_of_workspaces_follow_one_another() {
    let workspace = |name: &str| Workspace {
        name: name.to_string(),
        tabs: vec![Tab {
            panes: vec![Pane::default(), Pane::default()],
            ..Default::default()
        }],
        ..Default::default()
    };
    let file = SpreadFile {
        workspaces: vec![workspace("one"), workspace("two")],
    };
    let mut expected = engine::plan_workspace(&workspace("one"));
    expected.extend(engine::plan_workspace(&workspace("two")));
    assert_eq!(engine::plan_file(&file), expected);
    assert_eq!(expected.len(), 4);
}

#[test]
fn a_first_pane_of_a_later_tab_enters_only_its_own_directory() {
    let ws = Workspace {
        name: "demo".to_string(),
        root: Some("/proj".to_string()),
        tabs: vec![
            Tab::default(),
            Tab {
                cwd: Some("svc".to_string()),
                panes: vec![Pane {
                    command: Some("ls".to_string()),
                    ..Default::default()
                }],
                ..Default::default()
            },
            Tab {
                cwd: Some("svc".to_string()),
                panes: vec![Pane {
                    cwd: Some("in".to_string()),
                    ..Default::default()
                }],
                ..Default::default()
            },
        ],
        ..Default::default()
    };
    let lines: Vec<String> = engine::plan_workspace(&ws)
        .iter()
        .map(engine::render_op)
        .collect();
    assert_eq!(
        lines,
        vec![
            "workspace create --label 'demo' --cwd /proj --no-focus",
            "tab create --index 1 --cwd /proj/svc --no-focus",
            "pane run TabRoot(1) ls",
            "tab create --index 2 --cwd /proj/svc --no-focus",
            "pane run TabRoot(2) cd '/proj/svc/in'",
        ]
    );
}
