use herdr_spreader::backend::{SplitOpts, TabOpts, WorkspaceOpts};
use herdr_spreader::config::{Pane, Ratio, SplitDirection, SpreadFile, Tab, WaitFor, Workspace};
use herdr_spreader::engine::{self, BackendOp, PaneHandle};
use herdr_spreader::env::EnvMap;

fn build_spread_file() -> SpreadFile {
    SpreadFile {
        workspaces: vec![
            Workspace {
                name: "demo".to_string(),
                tabs: vec![
                    Tab {
                        label: Some("editor".to_string()),
                        cwd: None,
                        panes: vec![
                            Pane {
                                command: Some("nvim".to_string()),
                                focus: true,
                                ..Default::default()
                            },
                            Pane {
                                command: Some("cargo watch -x test".to_string()),
                                split: SplitDirection::Down,
                                ratio: Ratio::new("0.3"),
                                wait_for: Some(WaitFor {
                                    pattern: "Compiling".to_string(),
                                    timeout_ms: Some(10000),
                                }),
                                ..Default::default()
                            },
                        ],
                    },
                    Tab {
                        label: Some("server".to_string()),
                        cwd: None,
                        panes: vec![Pane {
                            command: Some("cargo run".to_string()),
                            ..Default::default()
                        }],
                    },
                ],
                ..Default::default()
            },
            Workspace {
                name: "demo2".to_string(),
                focus: true,
                tabs: vec![Tab {
                    label: None,
                    cwd: None,
                    panes: vec![Pane {
                        command: Some("htop".to_string()),
                        ..Default::default()
                    }],
                }],
                ..Default::default()
            },
        ],
    }
}

fn build_spread_file_with_focus_on_second_pane() -> SpreadFile {
    SpreadFile {
        workspaces: vec![Workspace {
            name: "demo".to_string(),
            tabs: vec![Tab {
                label: Some("editor".to_string()),
                panes: vec![
                    Pane {
                        command: Some("nvim".to_string()),
                        ..Default::default()
                    },
                    Pane {
                        command: Some("lazygit".to_string()),
                        split: SplitDirection::Right,
                        focus: true,
                        ..Default::default()
                    },
                ],
                ..Default::default()
            }],
            ..Default::default()
        }],
    }
}

#[test]
fn should_produce_expected_plan_for_two_workspace_fixture_before_execution() {
    let file = build_spread_file();
    let plan = engine::plan_file(&file);
    let expected: Vec<BackendOp> = vec![
        // --- demo ---
        BackendOp::CreateWorkspace(WorkspaceOpts {
            label: "demo".into(),
            cwd: None,
            env: EnvMap::new(),
            focus: true, // ws.focus == false OR first_pane.focus == true
        }),
        BackendOp::RenameFirstTab {
            label: "editor".into(),
        },
        BackendOp::Run {
            pane: PaneHandle::TabRoot(0),
            command: "nvim".into(),
        },
        BackendOp::SplitPane {
            from: PaneHandle::TabRoot(0),
            into: PaneHandle::Split(1),
            opts: SplitOpts {
                direction: SplitDirection::Down,
                ratio: Ratio::new("0.3"),
                cwd: None,
                env: EnvMap::new(),
                focus: false,
            },
        },
        BackendOp::Run {
            pane: PaneHandle::Split(1),
            command: "cargo watch -x test".into(),
        },
        BackendOp::WaitOutput {
            pane: PaneHandle::Split(1),
            wait: WaitFor {
                pattern: "Compiling".into(),
                timeout_ms: Some(10000),
            },
        },
        BackendOp::CreateTab {
            index: 1,
            opts: TabOpts {
                label: Some("server".into()),
                cwd: None,
                focus: false,
            },
        },
        BackendOp::Run {
            pane: PaneHandle::TabRoot(1),
            command: "cargo run".into(),
        },
        // --- demo2 ---
        BackendOp::CreateWorkspace(WorkspaceOpts {
            label: "demo2".into(),
            cwd: None,
            env: EnvMap::new(),
            focus: true, // ws.focus == true
        }),
        BackendOp::Run {
            pane: PaneHandle::TabRoot(0),
            command: "htop".into(),
        },
    ];
    assert_eq!(plan, expected);
}

#[test]
fn should_produce_expected_plan_for_second_pane_focus_fixture_before_execution() {
    let file = build_spread_file_with_focus_on_second_pane();
    let plan = engine::plan_file(&file);
    let expected: Vec<BackendOp> = vec![
        BackendOp::CreateWorkspace(WorkspaceOpts {
            label: "demo".into(),
            cwd: None,
            env: EnvMap::new(),
            focus: false, // ws.focus == false AND first_pane.focus == false
        }),
        BackendOp::RenameFirstTab {
            label: "editor".into(),
        },
        BackendOp::Run {
            pane: PaneHandle::TabRoot(0),
            command: "nvim".into(),
        },
        BackendOp::SplitPane {
            from: PaneHandle::TabRoot(0),
            into: PaneHandle::Split(1),
            opts: SplitOpts {
                direction: SplitDirection::Right,
                ratio: None,
                cwd: None,
                env: EnvMap::new(),
                focus: true,
            },
        },
        BackendOp::Run {
            pane: PaneHandle::Split(1),
            command: "lazygit".into(),
        },
    ];
    assert_eq!(plan, expected);
}
