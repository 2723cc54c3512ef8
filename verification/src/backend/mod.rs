//! What the planner asks of herdr, and what herdr answers.

use vstd::prelude::*;

use crate::config;
use crate::config::{Ratio, SplitDirection, WaitFor};
use crate::env::EnvMap;
use crate::text;
use crate::text::signed_decimal;

pub mod cli;

verus! {

/// The mathematical value of a result.
pub open spec fn result_view<T: DeepView, E: DeepView>(r: Result<T, E>) -> Result<T::V, E::V> {
    match r {
        Ok(value) => Ok(value.deep_view()),
        Err(e) => Err(e.deep_view()),
    }
}

/// How to create a workspace.
#[derive(Debug, Clone, PartialEq)]
pub struct WorkspaceOpts {
    pub label: String,
    pub cwd: Option<String>,
    pub env: EnvMap,
    pub focus: bool,
}

/// The mathematical value of [`WorkspaceOpts`].
pub struct WorkspaceOptsView {
    pub label: Seq<char>,
    pub cwd: Option<Seq<char>>,
    pub env: Seq<(Seq<char>, Seq<char>)>,
    pub focus: bool,
}

impl DeepView for WorkspaceOpts {
    type V = WorkspaceOptsView;

    open spec fn deep_view(&self) -> WorkspaceOptsView {
        WorkspaceOptsView {
            label: self.label@,
            cwd: self.cwd.deep_view(),
            env: self.env.deep_view(),
            focus: self.focus,
        }
    }
}

/// The ids of a new workspace, of its first tab and of that tab's pane.
#[derive(Debug, Clone, PartialEq)]
pub struct WorkspaceCreated {
    pub workspace_id: String,
    pub tab_id: String,
    pub root_pane_id: String,
}

/// The mathematical value of [`WorkspaceCreated`].
pub struct WorkspaceCreatedView {
    pub workspace_id: Seq<char>,
    pub tab_id: Seq<char>,
    pub root_pane_id: Seq<char>,
}

impl DeepView for WorkspaceCreated {
    type V = WorkspaceCreatedView;

    open spec fn deep_view(&self) -> WorkspaceCreatedView {
        WorkspaceCreatedView {
            workspace_id: self.workspace_id@,
            tab_id: self.tab_id@,
            root_pane_id: self.root_pane_id@,
        }
    }
}

/// How to create a tab.
#[derive(Debug, Clone, PartialEq)]
pub struct TabOpts {
    pub label: Option<String>,
    pub cwd: Option<String>,
    pub focus: bool,
}

/// The mathematical value of [`TabOpts`].
pub struct TabOptsView {
    pub label: Option<Seq<char>>,
    pub cwd: Option<Seq<char>>,
    pub focus: bool,
}

impl DeepView for TabOpts {
    type V = TabOptsView;

    open spec fn deep_view(&self) -> TabOptsView {
        TabOptsView {
            label: self.label.deep_view(),
            cwd: self.cwd.deep_view(),
            focus: self.focus,
        }
    }
}

/// The ids of a new tab and of its pane.
#[derive(Debug, Clone, PartialEq)]
pub struct TabCreated {
    pub tab_id: String,
    pub root_pane_id: String,
}

/// The mathematical value of [`TabCreated`].
pub struct TabCreatedView {
    pub tab_id: Seq<char>,
    pub root_pane_id: Seq<char>,
}

impl DeepView for TabCreated {
    type V = TabCreatedView;

    open spec fn deep_view(&self) -> TabCreatedView {
        TabCreatedView { tab_id: self.tab_id@, root_pane_id: self.root_pane_id@ }
    }
}

/// A workspace that already exists on the server.
#[derive(Debug, Clone, PartialEq)]
pub struct WorkspaceSummary {
    pub workspace_id: String,
    /// Herdr allows an unlabelled workspace, which can never match a layout.
    pub label: Option<String>,
}

/// The mathematical value of a [`WorkspaceSummary`].
pub struct WorkspaceSummaryView {
    pub workspace_id: Seq<char>,
    pub label: Option<Seq<char>>,
}

impl DeepView for WorkspaceSummary {
    type V = WorkspaceSummaryView;

    open spec fn deep_view(&self) -> WorkspaceSummaryView {
        WorkspaceSummaryView {
            workspace_id: self.workspace_id@,
            label: self.label.deep_view(),
        }
    }
}

/// A tab that already exists inside a workspace.
#[derive(Debug, Clone, PartialEq)]
pub struct TabSummary {
    pub tab_id: String,
    pub label: Option<String>,
}

/// The mathematical value of a [`TabSummary`].
pub struct TabSummaryView {
    pub tab_id: Seq<char>,
    pub label: Option<Seq<char>>,
}

impl DeepView for TabSummary {
    type V = TabSummaryView;

    open spec fn deep_view(&self) -> TabSummaryView {
        TabSummaryView { tab_id: self.tab_id@, label: self.label.deep_view() }
    }
}

/// How to split a pane.
#[derive(Debug, PartialEq)]
pub struct SplitOpts {
    pub direction: SplitDirection,
    pub ratio: Option<Ratio>,
    pub cwd: Option<String>,
    pub env: EnvMap,
    pub focus: bool,
}

/// The mathematical value of [`SplitOpts`].
pub struct SplitOptsView {
    pub direction: SplitDirection,
    pub ratio: Option<Seq<char>>,
    pub cwd: Option<Seq<char>>,
    pub env: Seq<(Seq<char>, Seq<char>)>,
    pub focus: bool,
}

impl DeepView for SplitOpts {
    type V = SplitOptsView;

    open spec fn deep_view(&self) -> SplitOptsView {
        SplitOptsView {
            direction: self.direction,
            ratio: self.ratio.deep_view(),
            cwd: self.cwd.deep_view(),
            env: self.env.deep_view(),
            focus: self.focus,
        }
    }
}

impl Clone for SplitOpts {
    fn clone(&self) -> (copy: Self)
        ensures
            copy.deep_view() == self.deep_view(),
    {
        SplitOpts {
            direction: self.direction,
            ratio: self.ratio.clone(),
            cwd: self.cwd.clone(),
            env: self.env.clone(),
            focus: self.focus,
        }
    }
}

impl Default for SplitOpts {
    fn default() -> (opts: Self)
        ensures
            opts.deep_view() == (SplitOptsView {
                direction: SplitDirection::Right,
                ratio: None,
                cwd: None,
                env: Seq::empty(),
                focus: false,
            }),
    {
        SplitOpts {
            direction: SplitDirection::Right,
            ratio: None,
            cwd: None,
            env: EnvMap::new(),
            focus: false,
        }
    }
}

/// What went wrong with a request to herdr.
#[derive(Debug, Clone, PartialEq)]
pub enum BackendError {
    /// Herdr answered with an error, or did not answer in a way that can be
    /// understood.
    Herdr { message: String },
    /// The herdr command ran and failed.
    CommandFailed { code: Option<i32>, stderr: String },
}

/// The mathematical value of a [`BackendError`].
pub enum BackendErrorView {
    Herdr { message: Seq<char> },
    CommandFailed { code: Option<i32>, stderr: Seq<char> },
}

impl DeepView for BackendError {
    type V = BackendErrorView;

    open spec fn deep_view(&self) -> BackendErrorView {
        match self {
            BackendError::Herdr { message } => BackendErrorView::Herdr { message: message@ },
            BackendError::CommandFailed { code, stderr } => BackendErrorView::CommandFailed {
                code: *code,
                stderr: stderr@,
            },
        }
    }
}

/// An exit code in words: `Some(7)` for a code of seven, `None` for none.
pub open spec fn exit_code_text(code: Option<i32>) -> Seq<char> {
    match code {
        Some(n) => "Some("@ + text::signed_decimal_text(n as int) + ")"@,
        None => "None"@,
    }
}

impl BackendError {
    /// The error in words.
    pub open spec fn text(&self) -> Seq<char> {
        match self {
            BackendError::Herdr { message } => "backend error: "@ + message@,
            BackendError::CommandFailed { code, stderr } => "herdr command failed (exit code "@
                + exit_code_text(*code) + "): "@ + stderr@,
        }
    }

    /// The error in words.
    pub fn to_string(&self) -> (text: String)
        ensures
            text@ == self.text(),
    {
        match self {
            BackendError::Herdr { message } => {
                let mut text: String = "backend error: ".to_string();
                text.append(message.as_str());
                text
            },
            BackendError::CommandFailed { code, stderr } => {
                let mut text: String = "herdr command failed (exit code ".to_string();
                let code_text: String = match code {
                    Some(n) => {
                        let mut some: String = "Some(".to_string();
                        some.append(signed_decimal(*n).as_str());
                        some.append(")");
                        some
                    },
                    None => "None".to_string(),
                };
                text.append(code_text.as_str());
                text.append("): ");
                text.append(stderr.as_str());
                text
            },
        }
    }
}

/// One request to herdr.
pub enum Call {
    CreateWorkspace(WorkspaceOptsView),
    RenameTab { tab_id: Seq<char>, label: Seq<char> },
    CreateTab { workspace_id: Seq<char>, opts: TabOptsView },
    SplitPane { from_pane: Seq<char>, opts: SplitOptsView },
    Run { pane_id: Seq<char>, command: Seq<char> },
    WaitOutput { pane_id: Seq<char>, wait: config::WaitForView },
    ListWorkspaces,
    ListTabs { workspace_id: Seq<char> },
    FocusWorkspace { workspace_id: Seq<char> },
    FocusPane { pane_id: Seq<char> },
}

/// What herdr answered to one request.
pub enum Reply {
    WorkspaceCreated(WorkspaceCreatedView),
    TabCreated(TabCreatedView),
    PaneCreated(Seq<char>),
    Done,
    Workspaces(Seq<WorkspaceSummaryView>),
    Tabs(Seq<TabSummaryView>),
    Failed(BackendErrorView),
}

/// A request, and the answer to it.
pub struct Exchange {
    pub call: Call,
    pub reply: Reply,
}

/// The answer behind the result of creating a workspace.
pub open spec fn workspace_reply(r: Result<WorkspaceCreated, BackendError>) -> Reply {
    match r {
        Ok(created) => Reply::WorkspaceCreated(created.deep_view()),
        Err(e) => Reply::Failed(e.deep_view()),
    }
}

/// The answer behind the result of creating a tab.
pub open spec fn tab_reply(r: Result<TabCreated, BackendError>) -> Reply {
    match r {
        Ok(created) => Reply::TabCreated(created.deep_view()),
        Err(e) => Reply::Failed(e.deep_view()),
    }
}

/// The answer behind the result of splitting a pane.
pub open spec fn pane_reply(r: Result<String, BackendError>) -> Reply {
    match r {
        Ok(pane_id) => Reply::PaneCreated(pane_id@),
        Err(e) => Reply::Failed(e.deep_view()),
    }
}

/// The answer behind a result that carries nothing.
pub open spec fn plain_reply(r: Result<(), BackendError>) -> Reply {
    match r {
        Ok(()) => Reply::Done,
        Err(e) => Reply::Failed(e.deep_view()),
    }
}

/// The answer behind a list of workspaces.
pub open spec fn workspaces_reply(r: Result<Vec<WorkspaceSummary>, BackendError>) -> Reply {
    match r {
        Ok(list) => Reply::Workspaces(list.deep_view()),
        Err(e) => Reply::Failed(e.deep_view()),
    }
}

/// The answer behind a list of tabs.
pub open spec fn tabs_reply(r: Result<Vec<TabSummary>, BackendError>) -> Reply {
    match r {
        Ok(list) => Reply::Tabs(list.deep_view()),
        Err(e) => Reply::Failed(e.deep_view()),
    }
}

/// A way to reach herdr.
///
/// Nothing is said of what herdr answers. What a call adds to the history of
/// the backend is the call itself and whatever came back.
pub trait HerdrBackend {
    /// Everything that was asked and answered so far, oldest first. A verified
    /// implementation keeps that as ghost state and says here where. The default
    /// is for code that is not verified: it says nothing, and so nothing can be
    /// shown of an implementation that leaves it in place.
    closed spec fn exchanges(&self) -> Seq<Exchange> {
        arbitrary()
    }

    /// Create a new workspace.
    ///
    /// # Errors
    ///
    /// Returns [`BackendError`] if the underlying command fails.
    fn create_workspace(&mut self, opts: &WorkspaceOpts) -> (r: Result<
        WorkspaceCreated,
        BackendError,
    >)
        ensures
            final(self).exchanges() == old(self).exchanges().push(
                Exchange {
                    call: Call::CreateWorkspace(opts.deep_view()),
                    reply: workspace_reply(r),
                },
            ),
    ;

    /// Rename an existing tab.
    ///
    /// # Errors
    ///
    /// Returns [`BackendError`] if the underlying command fails.
    fn rename_tab(&mut self, tab_id: &str, label: &str) -> (r: Result<(), BackendError>)
        ensures
            final(self).exchanges() == old(self).exchanges().push(
                Exchange {
                    call: Call::RenameTab { tab_id: tab_id@, label: label@ },
                    reply: plain_reply(r),
                },
            ),
    ;

    /// Create a new tab inside the given workspace.
    ///
    /// # Errors
    ///
    /// Returns [`BackendError`] if the underlying command fails.
    fn create_tab(&mut self, workspace_id: &str, opts: &TabOpts) -> (r: Result<
        TabCreated,
        BackendError,
    >)
        ensures
            final(self).exchanges() == old(self).exchanges().push(
                Exchange {
                    call: Call::CreateTab { workspace_id: workspace_id@, opts: opts.deep_view() },
                    reply: tab_reply(r),
                },
            ),
    ;

    /// Split an existing pane.
    ///
    /// # Errors
    ///
    /// Returns [`BackendError`] if the underlying command fails.
    fn split_pane(&mut self, from_pane: &str, opts: &SplitOpts) -> (r: Result<
        String,
        BackendError,
    >)
        ensures
            final(self).exchanges() == old(self).exchanges().push(
                Exchange {
                    call: Call::SplitPane { from_pane: from_pane@, opts: opts.deep_view() },
                    reply: pane_reply(r),
                },
            ),
    ;

    /// Run a command inside the given pane.
    ///
    /// # Errors
    ///
    /// Returns [`BackendError`] if the underlying command fails.
    fn run(&mut self, pane_id: &str, command: &str) -> (r: Result<(), BackendError>)
        ensures
            final(self).exchanges() == old(self).exchanges().push(
                Exchange {
                    call: Call::Run { pane_id: pane_id@, command: command@ },
                    reply: plain_reply(r),
                },
            ),
    ;

    /// Wait for output matching a pattern inside the given pane.
    ///
    /// # Errors
    ///
    /// Returns [`BackendError`] if the underlying command fails.
    fn wait_output(&mut self, pane_id: &str, wait: &WaitFor) -> (r: Result<(), BackendError>)
        ensures
            final(self).exchanges() == old(self).exchanges().push(
                Exchange {
                    call: Call::WaitOutput { pane_id: pane_id@, wait: wait.deep_view() },
                    reply: plain_reply(r),
                },
            ),
    ;

    /// List the workspaces that already exist on the server.
    ///
    /// # Errors
    ///
    /// Returns [`BackendError`] if the underlying command fails.
    fn list_workspaces(&mut self) -> (r: Result<Vec<WorkspaceSummary>, BackendError>)
        ensures
            final(self).exchanges() == old(self).exchanges().push(
                Exchange { call: Call::ListWorkspaces, reply: workspaces_reply(r) },
            ),
    ;

    /// List the tabs of an existing workspace.
    ///
    /// # Errors
    ///
    /// Returns [`BackendError`] if the underlying command fails.
    fn list_tabs(&mut self, workspace_id: &str) -> (r: Result<Vec<TabSummary>, BackendError>)
        ensures
            final(self).exchanges() == old(self).exchanges().push(
                Exchange {
                    call: Call::ListTabs { workspace_id: workspace_id@ },
                    reply: tabs_reply(r),
                },
            ),
    ;

    /// Focus an existing workspace.
    ///
    /// # Errors
    ///
    /// Returns [`BackendError`] if the underlying command fails.
    fn focus_workspace(&mut self, workspace_id: &str) -> (r: Result<(), BackendError>)
        ensures
            final(self).exchanges() == old(self).exchanges().push(
                Exchange {
                    call: Call::FocusWorkspace { workspace_id: workspace_id@ },
                    reply: plain_reply(r),
                },
            ),
    ;

    /// Focus the given pane.
    ///
    /// # Errors
    ///
    /// Returns [`BackendError`] if the underlying command fails.
    fn focus_pane(&mut self, pane_id: &str) -> (r: Result<(), BackendError>)
        ensures
            final(self).exchanges() == old(self).exchanges().push(
                Exchange {
                    call: Call::FocusPane { pane_id: pane_id@ },
                    reply: plain_reply(r),
                },
            ),
    ;
}

} // verus!
