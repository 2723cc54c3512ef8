use herdr_spreader::backend::{
    BackendError, HerdrBackend, SplitOpts, TabCreated, TabOpts, TabSummary, WorkspaceCreated,
    WorkspaceOpts, WorkspaceSummary,
};
use herdr_spreader::config::{SpreadFile, WaitFor};
use herdr_spreader::engine;
use herdr_spreader::engine::{BackendOp, PaneHandle};
use herdr_spreader::env::EnvMap;

#[derive(Default)]
struct RecordingBackend {
    log: Vec<String>,
    next_pane: u32,
}

impl HerdrBackend for RecordingBackend {
    fn create_workspace(
        &mut self,
        opts: &WorkspaceOpts,
    ) -> Result<WorkspaceCreated, BackendError> {
        self.log.push(format!(
            "create_workspace label={} focus={}",
            opts.label, opts.focus
        ));
        self.next_pane = 2;
        Ok(WorkspaceCreated {
            workspace_id: "w1".into(),
            tab_id: "w1:t1".into(),
            root_pane_id: "w1:p1".into(),
        })
    }

    fn rename_tab(&mut self, tab_id: &str, label: &str) -> Result<(), BackendError> {
        self.log.push(format!("rename_tab {tab_id} -> {label}"));
        Ok(())
    }

    fn create_tab(
        &mut self,
        workspace_id: &str,
        opts: &TabOpts,
    ) -> Result<TabCreated, BackendError> {
        let p = format!("{workspace_id}:p{}", self.next_pane);
        self.next_pane += 1;
        self.log.push(format!(
            "create_tab ws={workspace_id} label={:?} cwd={:?}",
            opts.label, opts.cwd
        ));
        Ok(TabCreated {
            tab_id: format!("{workspace_id}:t2"),
            root_pane_id: p,
        })
    }

    fn split_pane(&mut self, from: &str, opts: &SplitOpts) -> Result<String, BackendError> {
        let p = format!("w1:p{}", self.next_pane);
        self.next_pane += 1;
        self.log.push(format!(
            "split_pane from={from} -> {p} dir={:?} focus={}",
            opts.direction, opts.focus
        ));
        Ok(p)
    }

    fn run(&mut self, pane_id: &str, command: &str) -> Result<(), BackendError> {
        self.log.push(format!("run {pane_id} {command}"));
        Ok(())
    }

    fn wait_output(&mut self, pane_id: &str, wait: &WaitFor) -> Result<(), BackendError> {
        self.log
            .push(format!("wait_output {pane_id} pattern={}", wait.pattern));
        Ok(())
    }

    fn list_workspaces(&mut self) -> Result<Vec<WorkspaceSummary>, BackendError> {
        unreachable!("execute_plan must never call list_workspaces")
    }

    fn list_tabs(&mut self, _workspace_id: &str) -> Result<Vec<TabSummary>, BackendError> {
        unreachable!("execute_plan must never call list_tabs")
    }

    fn focus_workspace(&mut self, _workspace_id: &str) -> Result<(), BackendError> {
        unreachable!("execute_plan must never call focus_workspace")
    }

    fn focus_pane(&mut self, _pane_id: &str) -> Result<(), BackendError> {
        unreachable!("execute_plan must never call focus_pane")
    }
}

#[test]
fn should_execute_create_workspace_and_run_calls_in_plan_order_threading_ids_from_backend()
{
    let plan = vec![
        BackendOp::CreateWorkspace(WorkspaceOpts {
            label: "demo".into(),
            cwd: None,
            env: EnvMap::new(),
            focus: false,
        }),
        BackendOp::Run {
            pane: PaneHandle::TabRoot(0),
            command: "nvim".into(),
        },
    ];
    let mut rec = RecordingBackend::default();
    engine::execute_plan(&plan, &mut rec).unwrap();
    assert_eq!(
        rec.log,
        vec![
            "create_workspace label=demo focus=false".to_string(),
            "run w1:p1 nvim".to_string(),
        ]
    );
}

#[test]
fn should_thread_root_pane_id_from_create_workspace_into_a_run_on_tabroot_zero() {
    let plan = vec![
        BackendOp::CreateWorkspace(WorkspaceOpts {
            label: "demo".into(),
            cwd: None,
            env: EnvMap::new(),
            focus: false,
        }),
        BackendOp::Run {
            pane: PaneHandle::TabRoot(0),
            command: "nvim".into(),
        },
    ];
    let mut rec = RecordingBackend::default();
    engine::execute_plan(&plan, &mut rec).unwrap();
    assert_eq!(
        rec.log,
        vec![
            "create_workspace label=demo focus=false".to_string(),
            "run w1:p1 nvim".to_string(),
        ]
    );
}

#[test]
fn should_thread_split_pane_returned_id_into_subsequent_run() {
    let plan = vec![
        BackendOp::CreateWorkspace(WorkspaceOpts {
            label: "demo".into(),
            cwd: None,
            env: EnvMap::new(),
            focus: false,
        }),
        BackendOp::SplitPane {
            from: PaneHandle::TabRoot(0),
            into: PaneHandle::Split(1),
            opts: SplitOpts::default(),
        },
        BackendOp::Run {
            pane: PaneHandle::Split(1),
            command: "watch".into(),
        },
    ];
    let mut rec = RecordingBackend::default();
    engine::execute_plan(&plan, &mut rec).unwrap();
    assert_eq!(
        rec.log,
        vec![
            "create_workspace label=demo focus=false".to_string(),
            "split_pane from=w1:p1 -> w1:p2 dir=Right focus=false".to_string(),
            "run w1:p2 watch".to_string(),
        ]
    );
}

#[test]
fn should_thread_create_tab_indexed_handle_into_run_on_tabroot_index() {
    let plan = vec![
        BackendOp::CreateWorkspace(WorkspaceOpts {
            label: "demo".into(),
            cwd: None,
            env: EnvMap::new(),
            focus: false,
        }),
        BackendOp::CreateTab {
            index: 1,
            opts: TabOpts {
                label: None,
                cwd: None,
                focus: false,
            },
        },
        BackendOp::Run {
            pane: PaneHandle::TabRoot(1),
            command: "cargo run".into(),
        },
    ];
    let mut rec = RecordingBackend::default();
    engine::execute_plan(&plan, &mut rec).unwrap();
    assert_eq!(
        rec.log,
        vec![
            "create_workspace label=demo focus=false".to_string(),
            "create_tab ws=w1 label=None cwd=None".to_string(),
            "run w1:p2 cargo run".to_string(),
        ]
    );
}

#[test]
fn should_rename_first_tab_via_rename_first_tab_op_between_create_workspace_and_run() {
    let plan = vec![
        BackendOp::CreateWorkspace(WorkspaceOpts {
            label: "demo".into(),
            cwd: None,
            env: EnvMap::new(),
            focus: false,
        }),
        BackendOp::RenameFirstTab {
            label: "editor".into(),
        },
        BackendOp::Run {
            pane: PaneHandle::TabRoot(0),
            command: "nvim".into(),
        },
    ];
    let mut rec = RecordingBackend::default();
    engine::execute_plan(&plan, &mut rec).unwrap();
    assert_eq!(
        rec.log,
        vec![
            "create_workspace label=demo focus=false".to_string(),
            "rename_tab w1:t1 -> editor".to_string(),
            "run w1:p1 nvim".to_string(),
        ]
    );
}

#[test]
fn should_emit_wait_output_op_after_run_op_in_plan_order() {
    let plan = vec![
        BackendOp::CreateWorkspace(WorkspaceOpts {
            label: "demo".into(),
            cwd: None,
            env: EnvMap::new(),
            focus: false,
        }),
        BackendOp::Run {
            pane: PaneHandle::TabRoot(0),
            command: "watch".into(),
        },
        BackendOp::WaitOutput {
            pane: PaneHandle::TabRoot(0),
            wait: WaitFor {
                pattern: "ready".into(),
                timeout_ms: None,
            },
        },
    ];
    let mut rec = RecordingBackend::default();
    engine::execute_plan(&plan, &mut rec).unwrap();
    assert_eq!(
        rec.log,
        vec![
            "create_workspace label=demo focus=false".to_string(),
            "run w1:p1 watch".to_string(),
            "wait_output w1:p1 pattern=ready".to_string(),
        ]
    );
}

#[test]
fn should_make_no_backend_calls_given_empty_workspaces_list() {
    let file = SpreadFile { workspaces: vec![] };
    let plan = engine::plan_file(&file);
    assert!(plan.is_empty());
    let mut rec = RecordingBackend::default();
    engine::execute_plan(&plan, &mut rec).unwrap();
    assert!(rec.log.is_empty());
}

#[test]
fn a_later_workspace_takes_over_the_handles() {
    let create = |label: &str| {
        BackendOp::CreateWorkspace(WorkspaceOpts {
            label: label.to_string(),
            cwd: None,
            env: EnvMap::new(),
            focus: false,
        })
    };
    let split = BackendOp::SplitPane {
        from: PaneHandle::TabRoot(0),
        into: PaneHandle::TabRoot(0),
        opts: SplitOpts::default(),
    };
    let run = BackendOp::Run {
        pane: PaneHandle::TabRoot(0),
        command: "ls".to_string(),
    };
    let plan = vec![create("a"), split, run.clone(), create("b"), run];
    let mut rec = RecordingBackend::default();
    engine::execute_plan(&plan, &mut rec).unwrap();
    assert_eq!(
        rec.log,
        vec![
            "create_workspace label=a focus=false",
            "split_pane from=w1:p1 -> w1:p2 dir=Right focus=false",
            "run w1:p2 ls",
            "create_workspace label=b focus=false",
            "run w1:p1 ls",
        ]
    );
}
