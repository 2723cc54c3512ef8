use herdr_spreader::backend::cli::{
    pane_run_args, rename_tab_args, tab_create_args, wait_output_args, workspace_create_args,
    CliBackend, FocusStep, ProcessOutcome, SplitStep,
};
use herdr_spreader::backend::{
    BackendError, HerdrBackend, SplitOpts, TabCreated, TabOpts, TabSummary, WorkspaceCreated,
    WorkspaceOpts, WorkspaceSummary,
};
use herdr_spreader::config::{Pane, Ratio, SplitDirection, SpreadFile, Tab, WaitFor, Workspace};
use herdr_spreader::engine::{self, EngineError};

/// A herdr that logs the arguments it is called with and answers like the real
/// one.
struct FakeHerdr {
    cli: CliBackend,
    log: Vec<String>,
    workspaces: usize,
    fails_at: Option<usize>,
}

impl FakeHerdr {
    fn new() -> FakeHerdr {
        FakeHerdr {
            cli: CliBackend::new("herdr".to_string(), None),
            log: vec![],
            workspaces: 0,
            fails_at: None,
        }
    }

    fn id(&self) -> &'static str {
        ["wA", "wB", "wC"][self.workspaces - 1]
    }

    fn spawn(&mut self, args: &[String]) -> ProcessOutcome {
        self.log.push(args.join(" "));
        if self.fails_at == Some(self.log.len()) {
            return ProcessOutcome::Exited {
                success: false,
                code: Some(3),
                stdout: String::new(),
                stderr: "refused".to_string(),
            };
        }
        let stdout = match (args[0].as_str(), args[1].as_str()) {
            ("workspace", "create") => {
                self.workspaces += 1;
                let w = self.id();
                format!(
                    "{{\"result\":{{\"workspace\":{{\"workspace_id\":\"{w}\"}},\"tab\":{{\"tab_id\":\"{w}:t1\"}},\"root_pane\":{{\"pane_id\":\"{w}:p1\"}}}}}}"
                )
            }
            ("tab", "create") => {
                let w = self.id();
                format!(
                    "{{\"result\":{{\"tab\":{{\"tab_id\":\"{w}:t2\"}},\"root_pane\":{{\"pane_id\":\"{w}:p2\"}}}}}}"
                )
            }
            ("pane", "split") => {
                format!("{{\"result\":{{\"pane\":{{\"pane_id\":\"{}:p3\"}}}}}}", self.id())
            }
            ("pane", "layout") => {
                "{\"result\":{\"layout\":{\"area\":{\"width\":10,\"height\":30}}}}".to_string()
            }
            _ => String::new(),
        };
        ProcessOutcome::Exited {
            success: true,
            code: Some(0),
            stdout,
            stderr: String::new(),
        }
    }
}

impl HerdrBackend for FakeHerdr {
    fn create_workspace(&mut self, opts: &WorkspaceOpts) -> Result<WorkspaceCreated, BackendError> {
        let outcome = self.spawn(&workspace_create_args(opts));
        self.cli.workspace_created(outcome)
    }

    fn rename_tab(&mut self, tab_id: &str, label: &str) -> Result<(), BackendError> {
        let outcome = self.spawn(&rename_tab_args(tab_id, label));
        self.cli.finished(outcome)
    }

    fn create_tab(&mut self, workspace_id: &str, opts: &TabOpts) -> Result<TabCreated, BackendError> {
        let outcome = self.spawn(&tab_create_args(workspace_id, opts));
        self.cli.tab_created(outcome)
    }

    fn split_pane(&mut self, from_pane: &str, opts: &SplitOpts) -> Result<String, BackendError> {
        let mut layout = None;
        loop {
            match self.cli.split_step(from_pane, opts, layout.take(), None) {
                SplitStep::AskLayout(args) => layout = Some(self.spawn(&args)),
                SplitStep::Split(args) => {
                    let outcome = self.spawn(&args);
                    return self.cli.pane_created(outcome);
                }
                SplitStep::Failed(err) => return Err(err),
            }
        }
    }

    fn run(&mut self, pane_id: &str, command: &str) -> Result<(), BackendError> {
        let outcome = self.spawn(&pane_run_args(pane_id, command));
        self.cli.finished(outcome)
    }

    fn wait_output(&mut self, pane_id: &str, wait: &WaitFor) -> Result<(), BackendError> {
        let outcome = self.spawn(&wait_output_args(pane_id, wait));
        self.cli.finished(outcome)
    }

    fn list_workspaces(&mut self) -> Result<Vec<WorkspaceSummary>, BackendError> {
        unreachable!("a plan never lists workspaces")
    }

    fn list_tabs(&mut self, _workspace_id: &str) -> Result<Vec<TabSummary>, BackendError> {
        unreachable!("a plan never lists tabs")
    }

    fn focus_workspace(&mut self, _workspace_id: &str) -> Result<(), BackendError> {
        unreachable!("a plan never focuses a workspace by itself")
    }

    fn focus_pane(&mut self, pane_id: &str) -> Result<(), BackendError> {
        let mut command = None;
        loop {
            match self.cli.focus_step(pane_id, None, command.take()) {
                FocusStep::Run(args) => command = Some(self.spawn(&args)),
                FocusStep::AskSocket(path) => panic!("no socket at {path}"),
                FocusStep::Done(result) => return result,
            }
        }
    }
}

fn two_workspaces() -> SpreadFile {
    SpreadFile {
        workspaces: vec![
            Workspace {
                name: "demo".to_string(),
                tabs: vec![
                    Tab {
                        label: Some("editor".to_string()),
                        cwd: None,
                        panes: vec![
                            Pane {
                                command: Some("nvim".to_string()),
                                focus: true,
                                ..Default::default()
                            },
                            Pane {
                                command: Some("cargo watch -x test".to_string()),
                                split: SplitDirection::Down,
                                ratio: Ratio::new("0.3"),
                                wait_for: Some(WaitFor {
                                    pattern: "Compiling".to_string(),
                                    timeout_ms: Some(10000),
                                }),
                                ..Default::default()
                            },
                        ],
                    },
                    Tab {
                        label: Some("server".to_string()),
                        cwd: None,
                        panes: vec![Pane {
                            command: Some("cargo run".to_string()),
                            ..Default::default()
                        }],
                    },
                ],
                ..Default::default()
            },
            Workspace {
                name: "demo2".to_string(),
                focus: true,
                tabs: vec![Tab {
                    label: None,
                    cwd: None,
                    panes: vec![Pane {
                        command: Some("htop".to_string()),
                        ..Default::default()
                    }],
                }],
                ..Default::default()
            },
        ],
    }
}

const TWO_WORKSPACES_LOG: [&str; 10] = [
    "workspace create --label demo --focus",
    "tab rename wA:t1 editor",
    "pane run wA:p1 nvim",
    "pane split wA:p1 --direction down --ratio 0.3 --no-focus",
    "pane run wA:p3 cargo watch -x test",
    "pane wait-output wA:p3 --match Compiling --timeout 10000",
    "tab create --workspace wA --label server --no-focus",
    "pane run wA:p2 cargo run",
    "workspace create --label demo2 --focus",
    "pane run wB:p1 htop",
];

#[test]
fn ids_are_threaded_through_two_workspaces() {
    let mut herdr = FakeHerdr::new();

    engine::apply(&two_workspaces(), &mut herdr).unwrap();

    assert_eq!(herdr.log, TWO_WORKSPACES_LOG);
}

#[test]
fn should_focus_second_pane_when_focus_true_is_on_second_pane() {
    let file = SpreadFile {
        workspaces: vec![Workspace {
            name: "demo".to_string(),
            tabs: vec![Tab {
                label: Some("editor".to_string()),
                panes: vec![
                    Pane {
                        command: Some("nvim".to_string()),
                        ..Default::default()
                    },
                    Pane {
                        command: Some("lazygit".to_string()),
                        split: SplitDirection::Right,
                        focus: true,
                        ..Default::default()
                    },
                ],
                ..Default::default()
            }],
            ..Default::default()
        }],
    };
    let mut herdr = FakeHerdr::new();

    engine::apply(&file, &mut herdr).unwrap();

    assert_eq!(
        herdr.log,
        vec![
            "workspace create --label demo --no-focus",
            "tab rename wA:t1 editor",
            "pane run wA:p1 nvim",
            "pane split wA:p1 --direction right --focus",
            "pane run wA:p3 lazygit",
        ]
    );
}

#[test]
fn a_refused_request_ends_the_plan() {
    for n in 1..=TWO_WORKSPACES_LOG.len() {
        let mut herdr = FakeHerdr::new();
        herdr.fails_at = Some(n);

        let err = engine::apply(&two_workspaces(), &mut herdr).unwrap_err();

        assert_eq!(herdr.log, TWO_WORKSPACES_LOG[..n]);
        assert_eq!(
            err,
            EngineError::Backend(BackendError::CommandFailed {
                code: Some(3),
                stderr: "refused".to_string(),
            })
        );
        assert_eq!(
            err.to_string(),
            "herdr command failed (exit code Some(3)): refused"
        );
    }
}

#[test]
fn an_auto_split_is_resolved_on_the_way() {
    let file = SpreadFile {
        workspaces: vec![Workspace {
            name: "demo".to_string(),
            tabs: vec![Tab {
                panes: vec![
                    Pane::default(),
                    Pane {
                        split: SplitDirection::Auto,
                        ..Default::default()
                    },
                ],
                ..Default::default()
            }],
            ..Default::default()
        }],
    };
    let mut herdr = FakeHerdr::new();

    engine::apply(&file, &mut herdr).unwrap();

    assert_eq!(
        herdr.log,
        vec![
            "workspace create --label demo --no-focus",
            "pane layout --pane wA:p1",
            "pane split wA:p1 --direction down --no-focus",
        ]
    );
}

#[test]
fn focus_by_the_command_moves_from_the_pane() {
    let mut herdr = FakeHerdr::new();
    herdr.focus_pane("wA:p1").unwrap();
    assert_eq!(herdr.log, vec!["pane focus --pane wA:p1 --direction left"]);
}
