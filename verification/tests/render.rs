use herdr_spreader::backend::{SplitOpts, TabOpts, WorkspaceOpts};
use herdr_spreader::config::{Ratio, SplitDirection, WaitFor};
use herdr_spreader::engine::{render_op, BackendOp, PaneHandle};
use herdr_spreader::env::EnvMap;

fn env_of(entries: &[(&str, &str)]) -> EnvMap {
    let mut env = EnvMap::new();
    for (name, value) in entries {
        env.insert(name.to_string(), value.to_string());
    }
    env
}

#[test]
fn should_render_create_workspace_as_human_readable_line() {
    assert_eq!(
        render_op(&BackendOp::CreateWorkspace(WorkspaceOpts {
            label: "demo".into(),
            cwd: Some("/proj".to_string()),
            env: env_of(&[("FOO", "bar")]),
            focus: true,
        })),
        "workspace create --label 'demo' --cwd /proj --env FOO='bar' --focus"
    );
}

#[test]
fn should_render_create_workspace_without_optional_fields() {
    assert_eq!(
        render_op(&BackendOp::CreateWorkspace(WorkspaceOpts {
            label: "minimal".into(),
            cwd: None,
            env: EnvMap::new(),
            focus: false,
        })),
        "workspace create --label 'minimal' --no-focus"
    );
}

#[test]
fn should_render_rename_first_tab_as_human_readable_line() {
    assert_eq!(
        render_op(&BackendOp::RenameFirstTab {
            label: "editor".into(),
        }),
        "tab rename --label 'editor'"
    );
}

#[test]
fn should_render_create_tab_as_human_readable_line() {
    assert_eq!(
        render_op(&BackendOp::CreateTab {
            index: 2,
            opts: TabOpts {
                label: Some("server".into()),
                cwd: Some("/proj/svc".to_string()),
                focus: true,
            },
        }),
        "tab create --index 2 --label 'server' --cwd /proj/svc --focus"
    );
}

#[test]
fn should_render_create_tab_without_optional_fields() {
    assert_eq!(
        render_op(&BackendOp::CreateTab {
            index: 1,
            opts: TabOpts {
                label: None,
                cwd: None,
                focus: false,
            },
        }),
        "tab create --index 1 --no-focus"
    );
}

#[test]
fn should_render_split_pane_as_human_readable_line() {
    let mut env = EnvMap::new();
    env.insert("KEY".to_string(), "value".to_string());
    assert_eq!(
        render_op(&BackendOp::SplitPane {
            from: PaneHandle::TabRoot(0),
            into: PaneHandle::Split(1),
            opts: SplitOpts {
                direction: SplitDirection::Down,
                ratio: Ratio::new("0.3"),
                cwd: Some("/proj/sub".to_string()),
                env,
                focus: true,
            },
        }),
        "pane split TabRoot(0) -> Split(1) --direction down --ratio 0.3 --cwd /proj/sub --env KEY='value' --focus"
    );
}

#[test]
fn should_render_split_pane_without_optional_fields() {
    assert_eq!(
        render_op(&BackendOp::SplitPane {
            from: PaneHandle::TabRoot(0),
            into: PaneHandle::Split(1),
            opts: SplitOpts::default(),
        }),
        "pane split TabRoot(0) -> Split(1) --direction right --no-focus"
    );
}

#[test]
fn should_render_run_as_human_readable_line() {
    assert_eq!(
        render_op(&BackendOp::Run {
            pane: PaneHandle::Split(1),
            command: "cargo run".into(),
        }),
        "pane run Split(1) cargo run"
    );
}

#[test]
fn should_render_wait_output_as_human_readable_line() {
    assert_eq!(
        render_op(&BackendOp::WaitOutput {
            pane: PaneHandle::TabRoot(0),
            wait: WaitFor {
                pattern: "ready".into(),
                timeout_ms: Some(5000),
            },
        }),
        "wait output TabRoot(0) --match 'ready' --timeout 5000"
    );
}

#[test]
fn should_render_wait_output_without_timeout() {
    assert_eq!(
        render_op(&BackendOp::WaitOutput {
            pane: PaneHandle::TabRoot(0),
            wait: WaitFor {
                pattern: "done".into(),
                timeout_ms: None,
            },
        }),
        "wait output TabRoot(0) --match 'done'"
    );
}

#[test]
fn should_quote_shell_special_characters_in_rendered_strings() {
    assert_eq!(
        render_op(&BackendOp::RenameFirstTab {
            label: "it's ok".into(),
        }),
        "tab rename --label 'it'\\''s ok'"
    );
}

#[test]
fn an_unresolved_direction_is_shown_as_such() {
    assert_eq!(
        render_op(&BackendOp::SplitPane {
            from: PaneHandle::Split(1),
            into: PaneHandle::Split(12),
            opts: SplitOpts {
                direction: SplitDirection::Auto,
                ..Default::default()
            },
        }),
        "pane split Split(1) -> Split(12) --direction auto --no-focus"
    );
}
