//! The planner: from a layout to the operations that build it.

use vstd::prelude::*;

use crate::backend;
use crate::backend::{SplitOpts, TabOpts, WorkspaceOpts};
use crate::config;
use crate::config::{Pane, SpreadFile, Tab, WaitFor, Workspace};
use crate::env::EnvMap;
use crate::path;
use crate::path::{join_path, normalize_path};
use crate::shell;
use crate::shell::shell_quote;
use crate::text;
use crate::text::{join_texts, same_text};

pub mod execute;
pub mod render;

pub use self::execute::{apply, execute_plan, EngineError};
pub use self::render::render_op;

verus! {

/// A directory seen from another: normalized, and replaced altogether by an
/// absolute one.
pub open spec fn combined_cwd(base: Option<Seq<char>>, overlay: Option<Seq<char>>) -> Option<
    Seq<char>,
> {
    match (base, overlay) {
        (Some(base), Some(overlay)) => Some(path::normalized(path::joined_path(base, overlay))),
        (Some(base), None) => Some(path::normalized(base)),
        (None, Some(overlay)) => Some(path::normalized(overlay)),
        (None, None) => None,
    }
}

/// A pane's directory: the workspace's root, the tab's directory seen from
/// there, the pane's seen from that.
pub open spec fn resolved_cwd(
    root: Option<Seq<char>>,
    tab_cwd: Option<Seq<char>>,
    pane_cwd: Option<Seq<char>>,
) -> Option<Seq<char>> {
    combined_cwd(combined_cwd(root, tab_cwd), pane_cwd)
}

/// The text inside, if there is any.
fn borrowed(text: &Option<String>) -> (r: Option<&str>)
    ensures
        r.deep_view() == text.deep_view(),
{
    match text {
        Some(text) => Some(text.as_str()),
        None => None,
    }
}

/// `overlay` seen from `base`.
pub fn combine_cwd(base: Option<&str>, overlay: Option<&str>) -> (cwd: Option<String>)
    ensures
        cwd.deep_view() == combined_cwd(base.deep_view(), overlay.deep_view()),
{
    match (base, overlay) {
        (Some(base), Some(overlay)) => Some(normalize_path(join_path(base, overlay).as_str())),
        (Some(base), None) => Some(normalize_path(base)),
        (None, Some(overlay)) => Some(normalize_path(overlay)),
        (None, None) => None,
    }
}

/// The directory of a pane, of a tab in a workspace.
pub fn resolve_cwd(root: Option<&str>, tab_cwd: Option<&str>, pane_cwd: Option<&str>) -> (cwd:
    Option<String>)
    ensures
        cwd.deep_view() == resolved_cwd(
            root.deep_view(),
            tab_cwd.deep_view(),
            pane_cwd.deep_view(),
        ),
{
    let base: Option<String> = combine_cwd(root, tab_cwd);
    combine_cwd(borrowed(&base), pane_cwd)
}

/// The shell command that sets one variable.
pub open spec fn export_text(entry: (Seq<char>, Seq<char>)) -> Seq<char> {
    "export "@ + entry.0 + "="@ + shell::quoted_text(entry.1)
}

/// The shell commands that enter a directory and set variables.
pub open spec fn prefix_parts(
    cwd: Option<Seq<char>>,
    variables: Seq<(Seq<char>, Seq<char>)>,
) -> Seq<Seq<char>> {
    let enter = match cwd {
        Some(cwd) => seq!["cd "@ + shell::quoted_text(cwd)],
        None => Seq::empty(),
    };
    enter + variables.map_values(|entry: (Seq<char>, Seq<char>)| export_text(entry))
}

/// The shell line that enters a directory and sets variables, if there is
/// anything to do.
pub open spec fn prefix_text(
    cwd: Option<Seq<char>>,
    variables: Seq<(Seq<char>, Seq<char>)>,
) -> Option<Seq<char>> {
    if prefix_parts(cwd, variables).len() == 0 {
        None
    } else {
        Some(text::joined_text(prefix_parts(cwd, variables), " && "@))
    }
}

/// A command behind the line that prepares its directory and variables.
pub open spec fn wrapped_command(
    command: Seq<char>,
    cwd: Option<Seq<char>>,
    variables: Seq<(Seq<char>, Seq<char>)>,
) -> Seq<char> {
    match prefix_text(cwd, variables) {
        Some(prefix) => prefix + " && "@ + command,
        None => command,
    }
}

/// The shell line that enters `cwd` and sets `variables`.
pub fn cwd_env_prefix(cwd: Option<&str>, variables: &EnvMap) -> (prefix: Option<String>)
    ensures
        prefix.deep_view() == prefix_text(cwd.deep_view(), variables.deep_view()),
{
    let ghost all = prefix_parts(cwd.deep_view(), variables.deep_view());
    let ghost exports = variables.deep_view().map_values(
        |entry: (Seq<char>, Seq<char>)| export_text(entry),
    );
    let mut parts: Vec<String> = Vec::new();
    if let Some(dir) = cwd {
        let mut enter: String = "cd ".to_string();
        enter.append(shell_quote(dir).as_str());
        parts.push(enter);
    }
    let ghost entering = parts.deep_view();
    assert(entering + exports =~= all);
    let mut i: usize = 0;
    assert(entering =~= entering + exports.take(0));
    while i < variables.len()
        invariant
            i <= variables.deep_view().len(),
            exports == variables.deep_view().map_values(
                |entry: (Seq<char>, Seq<char>)| export_text(entry),
            ),
            parts.deep_view() == entering + exports.take(i as int),
        decreases variables.deep_view().len() - i,
    {
        let ghost earlier = parts.deep_view();
        let mut set: String = "export ".to_string();
        set.append(variables.name_at(i));
        set.append("=");
        set.append(shell_quote(variables.value_at(i)).as_str());
        assert(set@ =~= exports[i as int]);
        parts.push(set);
        proof {
            assert(parts.deep_view() =~= earlier.push(exports[i as int]));
            assert(exports.take(i + 1) == exports.take(i as int).push(exports[i as int]));
        }
        i = i + 1;
    }
    assert(exports.take(i as int) == exports);
    if parts.len() == 0 {
        None
    } else {
        Some(join_texts(&parts, " && "))
    }
}

/// `command` behind the line that enters `cwd` and sets `variables`.
pub fn wrap_command_with_cwd_and_env(command: &str, cwd: Option<&str>, variables: &EnvMap) -> (line:
    String)
    ensures
        line@ == wrapped_command(command@, cwd.deep_view(), variables.deep_view()),
{
    match cwd_env_prefix(cwd, variables) {
        Some(prefix) => {
            let mut line: String = prefix;
            line.append(" && ");
            line.append(command);
            line
        },
        None => command.to_string(),
    }
}

/// A pane of a plan, before herdr has given it an id.
#[derive(Debug, Clone, Copy, PartialEq, Eq, Structural, Hash)]
pub enum PaneHandle {
    /// The pane that a tab is created with.
    TabRoot(usize),
    /// A pane made by a split, by the number of the split in its workspace.
    Split(usize),
}

/// The mathematical value of a [`PaneHandle`].
pub enum HandleView {
    TabRoot(int),
    Split(int),
}

impl DeepView for PaneHandle {
    type V = HandleView;

    open spec fn deep_view(&self) -> HandleView {
        match self {
            PaneHandle::TabRoot(n) => HandleView::TabRoot(*n as int),
            PaneHandle::Split(n) => HandleView::Split(*n as int),
        }
    }
}

/// One step of a plan.
#[derive(Debug, Clone, PartialEq)]
pub enum BackendOp {
    CreateWorkspace(WorkspaceOpts),
    RenameFirstTab { label: String },
    CreateTab { index: usize, opts: TabOpts },
    SplitPane { from: PaneHandle, into: PaneHandle, opts: SplitOpts },
    Run { pane: PaneHandle, command: String },
    WaitOutput { pane: PaneHandle, wait: WaitFor },
}

/// The mathematical value of a [`BackendOp`].
pub enum BackendOpView {
    CreateWorkspace(backend::WorkspaceOptsView),
    RenameFirstTab { label: Seq<char> },
    CreateTab { index: int, opts: backend::TabOptsView },
    SplitPane { from: HandleView, into: HandleView, opts: backend::SplitOptsView },
    Run { pane: HandleView, command: Seq<char> },
    WaitOutput { pane: HandleView, wait: config::WaitForView },
}

impl DeepView for BackendOp {
    type V = BackendOpView;

    open spec fn deep_view(&self) -> BackendOpView {
        match self {
            BackendOp::CreateWorkspace(opts) => BackendOpView::CreateWorkspace(opts.deep_view()),
            BackendOp::RenameFirstTab { label } => BackendOpView::RenameFirstTab { label: label@ },
            BackendOp::CreateTab { index, opts } => BackendOpView::CreateTab {
                index: *index as int,
                opts: opts.deep_view(),
            },
            BackendOp::SplitPane { from, into, opts } => BackendOpView::SplitPane {
                from: from.deep_view(),
                into: into.deep_view(),
                opts: opts.deep_view(),
            },
            BackendOp::Run { pane, command } => BackendOpView::Run {
                pane: pane.deep_view(),
                command: command@,
            },
            BackendOp::WaitOutput { pane, wait } => BackendOpView::WaitOutput {
                pane: pane.deep_view(),
                wait: wait.deep_view(),
            },
        }
    }
}

/// How many panes of a tab are made by splitting: all but the first.
pub open spec fn splits_in(tab: config::TabView) -> nat {
    if tab.panes.len() == 0 {
        0
    } else {
        (tab.panes.len() - 1) as nat
    }
}

/// How many panes the first `t` tabs get by splitting.
pub open spec fn splits_before(tabs: Seq<config::TabView>, t: int) -> nat
    decreases t,
{
    if t <= 0 {
        0
    } else {
        splits_before(tabs, t - 1) + splits_in(tabs[t - 1])
    }
}

/// The pane `p` of tab `t`: the first is the one the tab is created with, the
/// others are numbered from one through the whole workspace.
pub open spec fn handle_of(tabs: Seq<config::TabView>, t: int, p: int) -> HandleView {
    if p <= 0 {
        HandleView::TabRoot(t)
    } else {
        HandleView::Split(splits_before(tabs, t) + p)
    }
}

/// The last of the first `n` panes that declares `id`, if one does.
pub open spec fn last_with_id(panes: Seq<config::PaneView>, n: int, id: Seq<char>) -> Option<int>
    decreases n,
{
    if n <= 0 {
        None
    } else if panes[n - 1].id == Some(id) {
        Some(n - 1)
    } else {
        last_with_id(panes, n - 1, id)
    }
}

/// The pane that pane `p` of a tab is split off: the one it names, else the
/// one before it.
pub open spec fn source_of(panes: Seq<config::PaneView>, p: int) -> int {
    match panes[p].from {
        Some(id) => match last_with_id(panes, p, id) {
            Some(q) => q,
            None => p - 1,
        },
        None => p - 1,
    }
}

/// Every pane but the first that names the pane to split off names one that
/// stands before it.
pub open spec fn sources_exist(panes: Seq<config::PaneView>) -> bool {
    forall|p: int|
        1 <= p < panes.len() && (#[trigger] panes[p]).from is Some ==> last_with_id(
            panes,
            p,
            panes[p].from->0,
        ) is Some
}

/// A workspace that can be planned: its panes name existing panes to split
/// off, and its splits can be numbered.
pub open spec fn plannable(ws: config::WorkspaceView) -> bool {
    &&& forall|t: int| 0 <= t < ws.tabs.len() ==> sources_exist((#[trigger] ws.tabs[t]).panes)
    &&& splits_before(ws.tabs, ws.tabs.len() as int) < usize::MAX
}

/// Every workspace can be planned.
pub open spec fn plannable_file(file: Seq<config::WorkspaceView>) -> bool {
    forall|i: int| 0 <= i < file.len() ==> plannable(#[trigger] file[i])
}

/// Whether the first pane of a tab asks for focus.
pub open spec fn first_pane_focus(tab: config::TabView) -> bool {
    tab.panes.len() > 0 && tab.panes[0].focus
}

/// The operation that creates the workspace, its first tab and that tab's
/// pane.
pub open spec fn workspace_op(ws: config::WorkspaceView) -> BackendOpView {
    BackendOpView::CreateWorkspace(
        backend::WorkspaceOptsView {
            label: ws.name,
            cwd: ws.root,
            env: ws.env,
            focus: ws.focus || (ws.tabs.len() > 0 && first_pane_focus(ws.tabs[0])),
        },
    )
}

/// The operation that opens tab `t`: the first exists already and is only
/// given its name.
pub open spec fn tab_head(ws: config::WorkspaceView, t: int) -> Seq<BackendOpView> {
    let tab = ws.tabs[t];
    if t == 0 {
        match tab.label {
            Some(label) => seq![BackendOpView::RenameFirstTab { label }],
            None => Seq::empty(),
        }
    } else {
        seq![
            BackendOpView::CreateTab {
                index: t,
                opts: backend::TabOptsView {
                    label: tab.label,
                    cwd: resolved_cwd(ws.root, tab.cwd, None),
                    focus: first_pane_focus(tab),
                },
            },
        ]
    }
}

/// The operation that makes pane `p` of tab `t`, if it is made by a split.
pub open spec fn pane_split(ws: config::WorkspaceView, t: int, p: int) -> Seq<BackendOpView> {
    let tab = ws.tabs[t];
    let pane = tab.panes[p];
    if p == 0 {
        Seq::empty()
    } else {
        seq![
            BackendOpView::SplitPane {
                from: handle_of(ws.tabs, t, source_of(tab.panes, p)),
                into: handle_of(ws.tabs, t, p),
                opts: backend::SplitOptsView {
                    direction: pane.split,
                    ratio: pane.ratio,
                    cwd: resolved_cwd(ws.root, tab.cwd, pane.cwd),
                    env: pane.env,
                    focus: pane.focus,
                },
            },
        ]
    }
}

/// The directory that the first pane of tab `t` has to enter by itself,
/// because the tab was not created there: the first tab starts in the
/// workspace's root, every other one in its own directory.
pub open spec fn entered_cwd(ws: config::WorkspaceView, t: int) -> Option<Seq<char>> {
    let tab = ws.tabs[t];
    let pane = tab.panes[0];
    if pane.cwd is Some || (t == 0 && tab.cwd is Some) {
        resolved_cwd(ws.root, tab.cwd, pane.cwd)
    } else {
        None
    }
}

/// What is typed into pane `p` of tab `t`. The first pane of a tab was not
/// created with a directory and variables of its own, so it gets them by
/// shell commands.
pub open spec fn pane_line(ws: config::WorkspaceView, t: int, p: int) -> Option<Seq<char>> {
    let pane = ws.tabs[t].panes[p];
    match pane.command {
        Some(command) => Some(
            if p == 0 {
                wrapped_command(command, entered_cwd(ws, t), pane.env)
            } else {
                command
            },
        ),
        None => if p == 0 {
            prefix_text(entered_cwd(ws, t), pane.env)
        } else {
            None
        },
    }
}

/// The operations that start what runs in pane `p` of tab `t`, and wait for it.
pub open spec fn pane_start(ws: config::WorkspaceView, t: int, p: int) -> Seq<BackendOpView> {
    let pane = ws.tabs[t].panes[p];
    let handle = handle_of(ws.tabs, t, p);
    let run = match pane_line(ws, t, p) {
        Some(command) => seq![BackendOpView::Run { pane: handle, command }],
        None => Seq::empty(),
    };
    let wait = match (pane.command, pane.wait_for) {
        (Some(_), Some(wait)) => seq![BackendOpView::WaitOutput { pane: handle, wait }],
        _ => Seq::empty(),
    };
    run + wait
}

/// The operations for pane `p` of tab `t`.
pub open spec fn pane_ops(ws: config::WorkspaceView, t: int, p: int) -> Seq<BackendOpView> {
    pane_split(ws, t, p) + pane_start(ws, t, p)
}

/// The operations for the first `n` panes of tab `t`, pane by pane.
pub open spec fn panes_ops(ws: config::WorkspaceView, t: int, n: int) -> Seq<BackendOpView>
    decreases n,
{
    if n <= 0 {
        Seq::empty()
    } else {
        panes_ops(ws, t, n - 1) + pane_ops(ws, t, n - 1)
    }
}

/// The operations for the first `n` tabs, tab by tab.
pub open spec fn tabs_ops(ws: config::WorkspaceView, n: int) -> Seq<BackendOpView>
    decreases n,
{
    if n <= 0 {
        Seq::empty()
    } else {
        tabs_ops(ws, n - 1) + tab_head(ws, n - 1) + panes_ops(
            ws,
            n - 1,
            ws.tabs[n - 1].panes.len() as int,
        )
    }
}

/// The plan of a workspace.
pub open spec fn workspace_plan(ws: config::WorkspaceView) -> Seq<BackendOpView> {
    seq![workspace_op(ws)] + tabs_ops(ws, ws.tabs.len() as int)
}

/// The plans of the first `n` workspaces, one after the other.
pub open spec fn workspaces_plan(file: Seq<config::WorkspaceView>, n: int) -> Seq<BackendOpView>
    decreases n,
{
    if n <= 0 {
        Seq::empty()
    } else {
        workspaces_plan(file, n - 1) + workspace_plan(file[n - 1])
    }
}

/// The plan of a layout: those of its workspaces, in order.
pub open spec fn file_plan(file: Seq<config::WorkspaceView>) -> Seq<BackendOpView> {
    workspaces_plan(file, file.len() as int)
}

/// A larger number of tabs has no fewer splits.
proof fn lemma_splits_grow(tabs: Seq<config::TabView>, s: int, t: int)
    requires
        s <= t,
    ensures
        splits_before(tabs, s) <= splits_before(tabs, t),
    decreases t - s,
{
    if s < t {
        lemma_splits_grow(tabs, s, t - 1);
    }
}

/// A pane found by its id stands among the first `n` and declares the id.
pub proof fn lemma_last_with_id(panes: Seq<config::PaneView>, n: int, id: Seq<char>)
    requires
        n <= panes.len(),
    ensures
        match last_with_id(panes, n, id) {
            Some(q) => {
                &&& 0 <= q < n
                &&& panes[q].id == Some(id)
                &&& forall|k: int| q < k < n ==> (#[trigger] panes[k]).id != Some(id)
            },
            None => forall|k: int| 0 <= k < n ==> (#[trigger] panes[k]).id != Some(id),
        },
    decreases n,
{
    if n > 0 && panes[n - 1].id != Some(id) {
        lemma_last_with_id(panes, n - 1, id);
    }
}

/// The position of the last of the first `n` panes that declares `id`.
fn find_last_with_id(panes: &Vec<Pane>, n: usize, id: &str) -> (found: Option<usize>)
    requires
        n <= panes.len(),
    ensures
        match (found, last_with_id(panes.deep_view(), n as int, id@)) {
            (Some(q), Some(r)) => q == r,
            (None, None) => true,
            _ => false,
        },
{
    let mut i: usize = n;
    while i > 0
        invariant
            i <= n <= panes.len(),
            last_with_id(panes.deep_view(), n as int, id@) == last_with_id(
                panes.deep_view(),
                i as int,
                id@,
            ),
        decreases i,
    {
        i = i - 1;
        assert(panes.deep_view()[i as int] == panes[i as int].deep_view());
        if let Some(declared) = &panes[i].id {
            if same_text(declared.as_str(), id) {
                return Some(i);
            }
        }
    }
    None
}

/// The handle of pane `p` of a tab whose first split has number `first_split`.
fn pane_handle(tab_index: usize, first_split: usize, p: usize) -> (handle: PaneHandle)
    requires
        p > 0 ==> first_split + p - 1 <= usize::MAX,
    ensures
        handle.deep_view() == if p == 0 {
            HandleView::TabRoot(tab_index as int)
        } else {
            HandleView::Split(first_split + p - 1)
        },
{
    if p == 0 {
        PaneHandle::TabRoot(tab_index)
    } else {
        PaneHandle::Split(first_split + (p - 1))
    }
}

/// The pane that pane `p` is split off: the one named by `from`, or the
/// previous pane of the tab when `from` is omitted.
fn resolve_split_source(panes: &Vec<Pane>, p: usize) -> (source: usize)
    requires
        1 <= p < panes.len(),
        sources_exist(panes.deep_view()),
    ensures
        source == source_of(panes.deep_view(), p as int),
        source < p,
{
    assert(panes.deep_view()[p as int] == panes[p as int].deep_view());
    match &panes[p].from {
        Some(id) => {
            proof {
                lemma_last_with_id(panes.deep_view(), p as int, id@);
            }
            match find_last_with_id(panes, p, id.as_str()) {
                Some(q) => q,
                None => p - 1,
            }
        },
        None => p - 1,
    }
}

/// Adds one operation to a plan.
fn push_op(ops: &mut Vec<BackendOp>, op: BackendOp)
    ensures
        final(ops).deep_view() == old(ops).deep_view().push(op.deep_view()),
{
    let ghost earlier = ops.deep_view();
    ops.push(op);
    assert(ops.deep_view() =~= earlier.push(op.deep_view()));
}

/// The directory that the first pane of a tab has to enter by itself.
fn cwd_to_enter(ws: &Workspace, t: usize) -> (cwd: Option<String>)
    requires
        t < ws.tabs.len(),
        ws.tabs[t as int].panes.len() > 0,
    ensures
        cwd.deep_view() == entered_cwd(ws.deep_view(), t as int),
{
    let tab: &Tab = &ws.tabs[t];
    let pane: &Pane = &tab.panes[0];
    assert(ws.deep_view().tabs[t as int] == tab.deep_view());
    assert(tab.deep_view().panes[0] == pane.deep_view());
    if pane.cwd.is_some() || (t == 0 && tab.cwd.is_some()) {
        resolve_cwd(borrowed(&ws.root), borrowed(&tab.cwd), borrowed(&pane.cwd))
    } else {
        None
    }
}

/// Adds the operations for pane `p` of tab `t`.
fn push_pane_ops(ops: &mut Vec<BackendOp>, ws: &Workspace, t: usize, first_split: usize, p: usize)
    requires
        t < ws.tabs.len(),
        p < ws.tabs[t as int].panes.len(),
        plannable(ws.deep_view()),
        first_split == splits_before(ws.deep_view().tabs, t as int) + 1,
    ensures
        final(ops).deep_view() == old(ops).deep_view() + pane_ops(
            ws.deep_view(),
            t as int,
            p as int,
        ),
{
    let ghost view = ws.deep_view();
    let ghost earlier = ops.deep_view();
    let tab: &Tab = &ws.tabs[t];
    let pane: &Pane = &tab.panes[p];
    proof {
        assert(view.tabs[t as int] == tab.deep_view());
        assert(tab.deep_view().panes[p as int] == pane.deep_view());
        lemma_splits_grow(view.tabs, t + 1, view.tabs.len() as int);
    }
    let handle: PaneHandle = pane_handle(t, first_split, p);
    assert(handle.deep_view() == handle_of(view.tabs, t as int, p as int));
    if p > 0 {
        let source: usize = resolve_split_source(&tab.panes, p);
        let op: BackendOp = BackendOp::SplitPane {
            from: pane_handle(t, first_split, source),
            into: handle,
            opts: SplitOpts {
                direction: pane.split,
                ratio: pane.ratio.clone(),
                cwd: resolve_cwd(borrowed(&ws.root), borrowed(&tab.cwd), borrowed(&pane.cwd)),
                env: pane.env.clone(),
                focus: pane.focus,
            },
        };
        push_op(ops, op);
    }
    assert(ops.deep_view() =~= earlier + pane_split(view, t as int, p as int));
    let ghost split = ops.deep_view();
    let line: Option<String> = match &pane.command {
        Some(command) => if p == 0 {
            let cwd: Option<String> = cwd_to_enter(ws, t);
            Some(wrap_command_with_cwd_and_env(command.as_str(), borrowed(&cwd), &pane.env))
        } else {
            Some(command.clone())
        },
        None => if p == 0 {
            let cwd: Option<String> = cwd_to_enter(ws, t);
            cwd_env_prefix(borrowed(&cwd), &pane.env)
        } else {
            None
        },
    };
    assert(line.deep_view() == pane_line(view, t as int, p as int));
    if let Some(command) = line {
        push_op(ops, BackendOp::Run { pane: handle, command });
    }
    if pane.command.is_some() {
        if let Some(wait) = &pane.wait_for {
            push_op(ops, BackendOp::WaitOutput { pane: handle, wait: wait.clone() });
        }
    }
    assert(ops.deep_view() =~= split + pane_start(view, t as int, p as int));
    assert(ops.deep_view() =~= earlier + pane_ops(view, t as int, p as int));
}

/// Whether the first pane of `tab` asks for focus.
fn first_pane_has_focus(tab: &Tab) -> (r: bool)
    ensures
        r == first_pane_focus(tab.deep_view()),
{
    if tab.panes.len() > 0 {
        assert(tab.deep_view().panes[0] == tab.panes[0].deep_view());
        tab.panes[0].focus
    } else {
        false
    }
}

/// Adds the operation that opens tab `t`.
fn push_tab_head(ops: &mut Vec<BackendOp>, ws: &Workspace, t: usize)
    requires
        t < ws.tabs.len(),
    ensures
        final(ops).deep_view() == old(ops).deep_view() + tab_head(ws.deep_view(), t as int),
{
    let ghost earlier = ops.deep_view();
    let tab: &Tab = &ws.tabs[t];
    assert(ws.deep_view().tabs[t as int] == tab.deep_view());
    if t == 0 {
        if let Some(label) = &tab.label {
            push_op(ops, BackendOp::RenameFirstTab { label: label.clone() });
        }
    } else {
        let op: BackendOp = BackendOp::CreateTab {
            index: t,
            opts: TabOpts {
                label: tab.label.clone(),
                cwd: resolve_cwd(borrowed(&ws.root), borrowed(&tab.cwd), None),
                focus: first_pane_has_focus(tab),
            },
        };
        push_op(ops, op);
    }
    assert(ops.deep_view() =~= earlier + tab_head(ws.deep_view(), t as int));
}

/// The operations that build `ws`.
///
/// Every `from` has to name the id of an earlier pane of the same tab, as it
/// does in a validated layout.
#[must_use]
pub fn plan_workspace(ws: &Workspace) -> (ops: Vec<BackendOp>)
    requires
        plannable(ws.deep_view()),
    ensures
        ops.deep_view() == workspace_plan(ws.deep_view()),
{
    let ghost view = ws.deep_view();
    let focus: bool = if ws.focus {
        true
    } else if ws.tabs.len() > 0 {
        assert(view.tabs[0] == ws.tabs[0].deep_view());
        first_pane_has_focus(&ws.tabs[0])
    } else {
        false
    };
    let mut ops: Vec<BackendOp> = Vec::new();
    assert(ops.deep_view() =~= Seq::<BackendOpView>::empty());
    let create: BackendOp = BackendOp::CreateWorkspace(
        WorkspaceOpts {
            label: ws.name.clone(),
            cwd: ws.root.clone(),
            env: ws.env.clone(),
            focus,
        },
    );
    push_op(&mut ops, create);
    assert(ops.deep_view() =~= seq![workspace_op(view)] + tabs_ops(view, 0));

    let mut first_split: usize = 1;
    let mut t: usize = 0;
    while t < ws.tabs.len()
        invariant
            t <= ws.tabs.len(),
            view == ws.deep_view(),
            plannable(view),
            first_split == splits_before(view.tabs, t as int) + 1,
            ops.deep_view() == seq![workspace_op(view)] + tabs_ops(view, t as int),
        decreases ws.tabs.len() - t,
    {
        let ghost before_tab = ops.deep_view();
        push_tab_head(&mut ops, ws, t);
        let panes: usize = ws.tabs[t].panes.len();
        assert(view.tabs[t as int] == ws.tabs[t as int].deep_view());
        let mut p: usize = 0;
        assert(ops.deep_view() =~= before_tab + tab_head(view, t as int) + panes_ops(
            view,
            t as int,
            0,
        ));
        while p < panes
            invariant
                p <= panes,
                t < ws.tabs.len(),
                panes == ws.tabs[t as int].panes.len(),
                view == ws.deep_view(),
                plannable(view),
                first_split == splits_before(view.tabs, t as int) + 1,
                ops.deep_view() == before_tab + tab_head(view, t as int) + panes_ops(
                    view,
                    t as int,
                    p as int,
                ),
            decreases panes - p,
        {
            push_pane_ops(&mut ops, ws, t, first_split, p);
            p = p + 1;
            assert(ops.deep_view() =~= before_tab + tab_head(view, t as int) + panes_ops(
                view,
                t as int,
                p as int,
            ));
        }
        proof {
            lemma_splits_grow(view.tabs, t + 1, view.tabs.len() as int);
        }
        if panes > 0 {
            first_split = first_split + (panes - 1);
        }
        t = t + 1;
        assert(ops.deep_view() =~= seq![workspace_op(view)] + tabs_ops(view, t as int));
    }
    ops
}

/// The operations that build the workspaces of `file`, one after the other.
#[must_use]
pub fn plan_file(file: &SpreadFile) -> (ops: Vec<BackendOp>)
    requires
        plannable_file(file.deep_view()),
    ensures
        ops.deep_view() == file_plan(file.deep_view()),
{
    let ghost view = file.deep_view();
    let mut ops: Vec<BackendOp> = Vec::new();
    assert(ops.deep_view() =~= workspaces_plan(view, 0));
    let mut i: usize = 0;
    while i < file.workspaces.len()
        invariant
            i <= file.workspaces.len(),
            view == file.deep_view(),
            plannable_file(view),
            ops.deep_view() == workspaces_plan(view, i as int),
        decreases file.workspaces.len() - i,
    {
        assert(view[i as int] == file.workspaces[i as int].deep_view());
        let ghost earlier = ops.deep_view();
        let mut more: Vec<BackendOp> = plan_workspace(&file.workspaces[i]);
        let ghost added = more.deep_view();
        ops.append(&mut more);
        assert(ops.deep_view() =~= earlier + added);
        i = i + 1;
    }
    ops
}

/// Whether every pane of a tab that names the pane to split off names one that
/// stands before it.
fn split_sources_exist(panes: &Vec<Pane>) -> (r: bool)
    ensures
        r == sources_exist(panes.deep_view()),
{
    let ghost view = panes.deep_view();
    let mut p: usize = 1;
    while p < panes.len()
        invariant
            1 <= p,
            view == panes.deep_view(),
            forall|k: int|
                1 <= k < p && k < view.len() && (#[trigger] view[k]).from is Some ==> last_with_id(
                    view,
                    k,
                    view[k].from->0,
                ) is Some,
        decreases panes.len() - p,
    {
        assert(view[p as int] == panes[p as int].deep_view());
        if let Some(id) = &panes[p].from {
            if find_last_with_id(panes, p, id.as_str()).is_none() {
                return false;
            }
        }
        p = p + 1;
    }
    true
}

/// Whether `ws` can be planned.
fn can_plan_workspace(ws: &Workspace) -> (r: bool)
    ensures
        r == plannable(ws.deep_view()),
{
    let ghost view = ws.deep_view();
    let mut splits: usize = 0;
    let mut t: usize = 0;
    while t < ws.tabs.len()
        invariant
            t <= ws.tabs.len(),
            view == ws.deep_view(),
            splits == splits_before(view.tabs, t as int),
            splits < usize::MAX,
            forall|k: int| 0 <= k < t ==> sources_exist((#[trigger] view.tabs[k]).panes),
        decreases ws.tabs.len() - t,
    {
        proof {
            assert(view.tabs[t as int] == ws.tabs[t as int].deep_view());
            lemma_splits_grow(view.tabs, t + 1, view.tabs.len() as int);
        }
        let panes: &Vec<Pane> = &ws.tabs[t].panes;
        if !split_sources_exist(panes) {
            return false;
        }
        if panes.len() > 0 {
            if panes.len() - 1 >= usize::MAX - splits {
                return false;
            }
            splits = splits + (panes.len() - 1);
        }
        t = t + 1;
    }
    true
}

/// Whether [`plan_file`] can plan `file`: every `from` names the id of an
/// earlier pane of the same tab, and the panes of a workspace can be numbered.
pub fn can_plan(file: &SpreadFile) -> (r: bool)
    ensures
        r == plannable_file(file.deep_view()),
{
    let ghost view = file.deep_view();
    let mut i: usize = 0;
    while i < file.workspaces.len()
        invariant
            i <= file.workspaces.len(),
            view == file.deep_view(),
            forall|k: int| 0 <= k < i ==> plannable(#[trigger] view[k]),
        decreases file.workspaces.len() - i,
    {
        assert(view[i as int] == file.workspaces[i as int].deep_view());
        if !can_plan_workspace(&file.workspaces[i]) {
            return false;
        }
        i = i + 1;
    }
    true
}

/// What to do about a workspace whose label already exists.
#[derive(Debug, Clone, Copy, PartialEq, Eq, Structural)]
pub enum OnExisting {
    /// Build the layout anyway.
    Create,
    /// Leave an existing workspace untouched and build nothing for it.
    Skip,
    /// Keep an existing workspace and add only the tabs it is missing.
    Sync,
}

} // verus!
