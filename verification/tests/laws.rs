use herdr_spreader::backend::{
    BackendError, HerdrBackend, SplitOpts, TabCreated, TabOpts, TabSummary, WorkspaceCreated,
    WorkspaceOpts, WorkspaceSummary,
};
use herdr_spreader::config::{
    Include, Pane, SplitDirection, SpreadFile, SpreadSource, Tab, WaitFor, Workspace,
    WorkspaceEntry,
};
use herdr_spreader::engine::{self, BackendOp, PaneHandle};
use herdr_spreader::env::EnvMap;
use herdr_spreader::includes::{load_flat, Facts, LoadStep, SourceOutcome};
use herdr_spreader::path::is_absolute;
use herdr_spreader::validate::validate;

/// Three tabs, with branches, commands, waits, directories and variables.
fn busy_workspace(focus: bool) -> Workspace {
    let mut env = EnvMap::new();
    env.insert("KEY".to_string(), "value".to_string());
    let pane = |command: Option<&str>| Pane {
        command: command.map(str::to_string),
        focus,
        ..Default::default()
    };
    Workspace {
        name: "busy".to_string(),
        root: Some("/proj".to_string()),
        env: env.clone(),
        focus,
        tabs: vec![
            Tab {
                label: Some("one".to_string()),
                cwd: Some("sub".to_string()),
                panes: vec![
                    Pane {
                        id: Some("root".to_string()),
                        env,
                        ..pane(None)
                    },
                    Pane {
                        id: Some("left".to_string()),
                        from: Some("root".to_string()),
                        wait_for: Some(WaitFor {
                            pattern: "ok".to_string(),
                            timeout_ms: Some(1),
                        }),
                        ..pane(Some("make"))
                    },
                    Pane {
                        from: Some("root".to_string()),
                        split: SplitDirection::Down,
                        cwd: Some("/abs".to_string()),
                        ..pane(Some("top"))
                    },
                    Pane {
                        from: Some("left".to_string()),
                        ..pane(None)
                    },
                ],
            },
            Tab {
                label: None,
                cwd: Some("../up".to_string()),
                panes: vec![pane(Some("ls")), pane(Some("ps"))],
            },
            Tab {
                label: Some("three".to_string()),
                cwd: None,
                panes: vec![pane(None)],
            },
        ],
    }
}

fn busy_file(focus: bool) -> SpreadFile {
    SpreadFile {
        workspaces: vec![
            busy_workspace(focus),
            Workspace {
                name: "other".to_string(),
                ..busy_workspace(focus)
            },
        ],
    }
}

fn focuses(op: &BackendOp) -> bool {
    match op {
        BackendOp::CreateWorkspace(opts) => opts.focus,
        BackendOp::CreateTab { opts, .. } => opts.focus,
        BackendOp::SplitPane { opts, .. } => opts.focus,
        _ => false,
    }
}

fn produced(op: &BackendOp) -> Option<PaneHandle> {
    match op {
        BackendOp::CreateWorkspace(_) => Some(PaneHandle::TabRoot(0)),
        BackendOp::CreateTab { index, .. } => Some(PaneHandle::TabRoot(*index)),
        BackendOp::SplitPane { into, .. } => Some(*into),
        _ => None,
    }
}

#[test]
fn nothing_takes_focus_unasked() {
    assert!(!engine::plan_file(&busy_file(false)).iter().any(focuses));
    let makers = engine::plan_file(&busy_file(true));
    assert!(makers
        .iter()
        .filter(|op| produced(op).is_some())
        .all(focuses));
}

#[test]
fn every_pane_is_made_once_and_started() {
    let ws = busy_workspace(false);
    let plan = engine::plan_workspace(&ws);
    let made: Vec<PaneHandle> = plan.iter().filter_map(produced).collect();
    assert_eq!(
        made,
        vec![
            PaneHandle::TabRoot(0),
            PaneHandle::Split(1),
            PaneHandle::Split(2),
            PaneHandle::Split(3),
            PaneHandle::TabRoot(1),
            PaneHandle::Split(4),
            PaneHandle::TabRoot(2),
        ]
    );
    let lines: Vec<String> = plan
        .iter()
        .filter(|op| produced(op).is_none())
        .map(engine::render_op)
        .collect();
    assert_eq!(
        lines,
        vec![
            "tab rename --label 'one'",
            "pane run TabRoot(0) cd '/proj/sub' && export KEY='value'",
            "pane run Split(1) make",
            "wait output Split(1) --match 'ok' --timeout 1",
            "pane run Split(2) top",
            "pane run TabRoot(1) ls",
            "pane run Split(4) ps",
        ]
    );
}

#[test]
fn every_directory_of_a_rooted_workspace_is_absolute() {
    for op in engine::plan_workspace(&busy_workspace(false)) {
        let cwd = match op {
            BackendOp::CreateWorkspace(opts) => opts.cwd,
            BackendOp::CreateTab { opts, .. } => opts.cwd,
            BackendOp::SplitPane { opts, .. } => opts.cwd,
            _ => continue,
        };
        assert!(is_absolute(&cwd.unwrap()));
    }
}

#[test]
fn a_validated_layout_can_be_planned() {
    let file = busy_file(false);
    assert!(validate(&file).is_empty());
    assert!(engine::can_plan(&file));
}

#[test]
fn the_order_of_setting_variables_leaves_no_trace() {
    let set = |names: [&str; 3]| {
        let mut env = EnvMap::new();
        for name in names {
            env.insert(name.to_string(), format!("value of {name}"));
        }
        env
    };
    assert_eq!(set(["A", "B", "C"]), set(["C", "A", "B"]));
    assert_ne!(set(["A", "B", "C"]), set(["A", "B", "D"]));
}

/// Gives out ids that no one could guess, and remembers them.
#[derive(Default)]
struct Secretive {
    given: Vec<String>,
}

impl Secretive {
    fn give(&mut self) -> String {
        let id = format!("id-{}", self.given.len() * 7919 + 104729);
        self.given.push(id.clone());
        id
    }

    fn check(&self, id: &str) {
        assert!(self.given.iter().any(|given| given == id), "{id}");
    }
}

impl HerdrBackend for Secretive {
    fn create_workspace(&mut self, _opts: &WorkspaceOpts) -> Result<WorkspaceCreated, BackendError> {
        Ok(WorkspaceCreated {
            workspace_id: self.give(),
            tab_id: self.give(),
            root_pane_id: self.give(),
        })
    }

    fn rename_tab(&mut self, tab_id: &str, _label: &str) -> Result<(), BackendError> {
        self.check(tab_id);
        Ok(())
    }

    fn create_tab(&mut self, workspace_id: &str, _opts: &TabOpts) -> Result<TabCreated, BackendError> {
        self.check(workspace_id);
        Ok(TabCreated {
            tab_id: self.give(),
            root_pane_id: self.give(),
        })
    }

    fn split_pane(&mut self, from_pane: &str, _opts: &SplitOpts) -> Result<String, BackendError> {
        self.check(from_pane);
        Ok(self.give())
    }

    fn run(&mut self, pane_id: &str, _command: &str) -> Result<(), BackendError> {
        self.check(pane_id);
        Ok(())
    }

    fn wait_output(&mut self, pane_id: &str, _wait: &WaitFor) -> Result<(), BackendError> {
        self.check(pane_id);
        Ok(())
    }

    fn list_workspaces(&mut self) -> Result<Vec<WorkspaceSummary>, BackendError> {
        unreachable!("a plan never lists workspaces")
    }

    fn list_tabs(&mut self, _workspace_id: &str) -> Result<Vec<TabSummary>, BackendError> {
        unreachable!("a plan never lists tabs")
    }

    fn focus_workspace(&mut self, _workspace_id: &str) -> Result<(), BackendError> {
        unreachable!("a plan never focuses a workspace by itself")
    }

    fn focus_pane(&mut self, _pane_id: &str) -> Result<(), BackendError> {
        unreachable!("a plan never focuses a pane by itself")
    }
}

#[test]
fn ids_are_never_invented() {
    let mut backend = Secretive::default();
    engine::apply(&busy_file(true), &mut backend).unwrap();
    assert_eq!(backend.given.len(), 2 * (3 + 2 + 2 + 4));
}

fn small_disk(extra: bool) -> Facts {
    let mut facts = Facts::new();
    let parsed = |entries: Vec<WorkspaceEntry>| {
        SourceOutcome::Parsed(SpreadSource {
            workspaces: entries,
        })
    };
    let inline = |name: &str, root: Option<&str>| {
        WorkspaceEntry::Inline(Workspace {
            name: name.to_string(),
            root: root.map(str::to_string),
            ..Default::default()
        })
    };
    facts.record_identity("/cfg/c.yaml".to_string(), "/cfg/c.yaml".to_string());
    facts.record_source(
        "/cfg/c.yaml".to_string(),
        parsed(vec![
            inline("first", Some("here")),
            WorkspaceEntry::Include(Include {
                target: "../repo/l.yaml".to_string(),
                optional: false,
            }),
        ]),
    );
    let target = "/cfg/../repo/l.yaml".to_string();
    facts.record_file(target.clone(), true);
    facts.record_identity(target.clone(), "/repo/l.yaml".to_string());
    facts.record_source(
        target,
        parsed(vec![inline("second", None), inline("third", Some("sub"))]),
    );
    if extra {
        facts.record_file("/elsewhere".to_string(), true);
        facts.record_dir("/cfg".to_string(), true);
        facts.record_source(
            "/elsewhere".to_string(),
            SourceOutcome::ReadFailed("no".to_string()),
        );
    }
    facts
}

fn roots(facts: &Facts) -> Vec<String> {
    match load_flat("/cfg/c.yaml", "/work", &EnvMap::new(), facts) {
        LoadStep::Done(Ok(file)) => file
            .workspaces
            .into_iter()
            .map(|ws| ws.root.unwrap())
            .collect(),
        other => panic!("expected a layout, got {other:?}"),
    }
}

#[test]
fn loaded_roots_are_absolute_and_nothing_unasked_matters() {
    let found = roots(&small_disk(false));
    assert_eq!(
        found,
        vec!["/work/here", "/cfg/../repo", "/cfg/../repo/sub"]
    );
    assert!(found.iter().all(|root| is_absolute(root)));
    assert_eq!(roots(&small_disk(true)), found);
}
