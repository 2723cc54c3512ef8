//! What holds of layouts, plans and their execution as a whole.

use vstd::prelude::*;

use crate::backend;
use crate::backend::cli;
use crate::config;
use crate::engine;
use crate::engine::execute;
use crate::engine::{BackendOpView, HandleView};
use crate::includes;
use crate::json;
use crate::path;
use crate::validate;

pub mod answers;
pub mod applied;
pub mod built;
pub mod called;
pub mod checked;
pub mod commands;
pub mod kept;
pub mod shown;

verus! {

/// The id that a request uses, if it uses one.
pub open spec fn used_id(call: backend::Call) -> Option<Seq<char>> {
    match call {
        backend::Call::RenameTab { tab_id, .. } => Some(tab_id),
        backend::Call::CreateTab { workspace_id, .. } => Some(workspace_id),
        backend::Call::SplitPane { from_pane, .. } => Some(from_pane),
        backend::Call::Run { pane_id, .. } => Some(pane_id),
        backend::Call::WaitOutput { pane_id, .. } => Some(pane_id),
        backend::Call::ListTabs { workspace_id } => Some(workspace_id),
        backend::Call::FocusWorkspace { workspace_id } => Some(workspace_id),
        backend::Call::FocusPane { pane_id } => Some(pane_id),
        backend::Call::CreateWorkspace(_) => None,
        backend::Call::ListWorkspaces => None,
    }
}

/// An answer gives this id.
pub open spec fn gives(reply: backend::Reply, id: Seq<char>) -> bool {
    match reply {
        backend::Reply::WorkspaceCreated(created) => id == created.workspace_id || id
            == created.tab_id || id == created.root_pane_id,
        backend::Reply::TabCreated(created) => id == created.tab_id || id == created.root_pane_id,
        backend::Reply::PaneCreated(pane_id) => id == pane_id,
        _ => false,
    }
}

/// One of the first `n` answers gives this id.
pub open spec fn given(trace: Seq<backend::Exchange>, n: int, id: Seq<char>) -> bool {
    exists|j: int| 0 <= j < n && gives((#[trigger] trace[j]).reply, id)
}

/// Everything known came out of an answer.
proof fn lemma_known_was_given(
    plan: Seq<BackendOpView>,
    trace: Seq<backend::Exchange>,
    n: int,
)
    requires
        0 <= n <= trace.len(),
    ensures
        ({
            let known = execute::known_after(plan, trace, n);
            &&& known.workspace_id is Some ==> given(trace, n, known.workspace_id->0)
            &&& known.tab0_id is Some ==> given(trace, n, known.tab0_id->0)
            &&& forall|h: HandleView| #[trigger]
                known.panes.contains_key(h) ==> given(trace, n, known.panes[h])
        }),
    decreases n,
{
    if n > 0 {
        lemma_known_was_given(plan, trace, n - 1);
        let earlier = execute::known_after(plan, trace, n - 1);
        let known = execute::known_after(plan, trace, n);
        let reply = trace[n - 1].reply;
        assert forall|id: Seq<char>| #[trigger] given(trace, n - 1, id) implies given(
            trace,
            n,
            id,
        ) by {
            let j = choose|j: int| 0 <= j < n - 1 && gives((#[trigger] trace[j]).reply, id);
            assert(gives(trace[j].reply, id));
        }
        assert forall|id: Seq<char>| #[trigger] gives(reply, id) implies given(trace, n, id) by {}
        if known.workspace_id is Some {
            assert(given(trace, n - 1, known.workspace_id->0) || gives(
                reply,
                known.workspace_id->0,
            ));
        }
        if known.tab0_id is Some {
            assert(given(trace, n - 1, known.tab0_id->0) || gives(reply, known.tab0_id->0));
        }
        assert forall|h: HandleView| #[trigger] known.panes.contains_key(h) implies given(
            trace,
            n,
            known.panes[h],
        ) by {
            if earlier.panes.contains_key(h) && known.panes[h] == earlier.panes[h] {
                assert(given(trace, n - 1, known.panes[h]));
            } else {
                assert(gives(reply, known.panes[h]));
            }
        }
    }
}

/// The id that the request for an operation uses is one that is known.
proof fn lemma_used_is_given(
    known: execute::Known,
    op: BackendOpView,
    trace: Seq<backend::Exchange>,
    n: int,
)
    requires
        op is RenameFirstTab ==> known.tab0_id is Some,
        op is CreateTab ==> known.workspace_id is Some,
        execute::needed(op) is Some ==> known.panes.contains_key(execute::needed(op)->0),
        known.workspace_id is Some ==> given(trace, n, known.workspace_id->0),
        known.tab0_id is Some ==> given(trace, n, known.tab0_id->0),
        forall|h: HandleView| #[trigger]
            known.panes.contains_key(h) ==> given(trace, n, known.panes[h]),
    ensures
        used_id(execute::call_for(known, op)) is Some ==> given(
            trace,
            n,
            used_id(execute::call_for(known, op))->0,
        ),
{
}

/// Ids are never invented: every id that a request uses came back in the
/// answer to an earlier request.
pub proof fn law_ids_are_never_invented(
    plan: Seq<BackendOpView>,
    trace: Seq<backend::Exchange>,
)
    requires
        execute::well_ordered(plan),
        execute::follows_plan(plan, trace),
    ensures
        forall|i: int|
            0 <= i < trace.len() && used_id((#[trigger] trace[i]).call) is Some ==> given(
                trace,
                i,
                used_id(trace[i].call)->0,
            ),
{
    assert forall|i: int|
        0 <= i < trace.len() && used_id((#[trigger] trace[i]).call) is Some implies given(
        trace,
        i,
        used_id(trace[i].call)->0,
    ) by {
        let known = execute::known_after(plan, trace, i);
        let op = plan[i];
        assert(trace[i].call == execute::call_for(known, op));
        assert(execute::ready(plan.take(i), op));
        execute::lemma_made_is_known(plan, trace, i);
        lemma_known_was_given(plan, trace, i);
        lemma_used_is_given(known, op, trace, i);
    }
}

/// Carrying out a plan only ever creates, renames, splits, runs and waits: it
/// never asks what exists, and never asks for focus by itself.
pub proof fn law_plans_ask_for_nothing_else(
    plan: Seq<BackendOpView>,
    trace: Seq<backend::Exchange>,
)
    requires
        execute::follows_plan(plan, trace),
    ensures
        forall|i: int|
            0 <= i < trace.len() ==> {
                let call = (#[trigger] trace[i]).call;
                ||| call is CreateWorkspace
                ||| call is RenameTab
                ||| call is CreateTab
                ||| call is SplitPane
                ||| call is Run
                ||| call is WaitOutput
            },
{
}

/// An operation that gives focus to what it makes.
pub open spec fn gives_focus(op: BackendOpView) -> bool {
    match op {
        BackendOpView::CreateWorkspace(opts) => opts.focus,
        BackendOpView::CreateTab { opts, .. } => opts.focus,
        BackendOpView::SplitPane { opts, .. } => opts.focus,
        _ => false,
    }
}

/// No pane of the workspace asks for focus, nor does the workspace itself.
pub open spec fn asks_no_focus(ws: config::WorkspaceView) -> bool {
    &&& !ws.focus
    &&& forall|t: int, p: int|
        0 <= t < ws.tabs.len() && 0 <= p < ws.tabs[t].panes.len() ==> !(
        #[trigger] ws.tabs[t].panes[p]).focus
}

/// None of the operations gives focus.
pub open spec fn none_gives_focus(ops: Seq<BackendOpView>) -> bool {
    forall|i: int| 0 <= i < ops.len() ==> !gives_focus(#[trigger] ops[i])
}

proof fn lemma_no_focus_in_panes(ws: config::WorkspaceView, t: int, n: int)
    requires
        asks_no_focus(ws),
        0 <= t < ws.tabs.len(),
        n <= ws.tabs[t].panes.len(),
    ensures
        none_gives_focus(engine::panes_ops(ws, t, n)),
    decreases n,
{
    if n > 0 {
        lemma_no_focus_in_panes(ws, t, n - 1);
        assert(!ws.tabs[t].panes[n - 1].focus);
    }
}

proof fn lemma_no_focus_in_tabs(ws: config::WorkspaceView, n: int)
    requires
        asks_no_focus(ws),
        n <= ws.tabs.len(),
    ensures
        none_gives_focus(engine::tabs_ops(ws, n)),
    decreases n,
{
    if n > 0 {
        lemma_no_focus_in_tabs(ws, n - 1);
        let tab = ws.tabs[n - 1];
        lemma_no_focus_in_panes(ws, n - 1, tab.panes.len() as int);
        if tab.panes.len() > 0 {
            assert(!ws.tabs[n - 1].panes[0].focus);
        }
        assert(none_gives_focus(engine::tab_head(ws, n - 1)));
    }
}

proof fn lemma_no_focus_in_workspaces(file: Seq<config::WorkspaceView>, n: int)
    requires
        forall|i: int| 0 <= i < file.len() ==> asks_no_focus(#[trigger] file[i]),
        n <= file.len(),
    ensures
        none_gives_focus(engine::workspaces_plan(file, n)),
    decreases n,
{
    if n > 0 {
        lemma_no_focus_in_workspaces(file, n - 1);
        let ws = file[n - 1];
        lemma_no_focus_in_tabs(ws, ws.tabs.len() as int);
        if ws.tabs.len() > 0 && ws.tabs[0].panes.len() > 0 {
            assert(!ws.tabs[0].panes[0].focus);
        }
        assert(!gives_focus(engine::workspace_op(ws)));
        assert(none_gives_focus(engine::workspace_plan(ws)));
    }
}

/// Where no workspace and no pane asks for focus, nothing that is built takes
/// it: the user's focus stays where it is.
pub proof fn law_focus_is_left_alone(file: Seq<config::WorkspaceView>)
    requires
        forall|i: int| 0 <= i < file.len() ==> asks_no_focus(#[trigger] file[i]),
    ensures
        none_gives_focus(engine::file_plan(file)),
{
    lemma_no_focus_in_workspaces(file, file.len() as int);
}

/// The number of the split that an operation makes, if it makes one.
pub open spec fn split_number(op: BackendOpView) -> Option<int> {
    match op {
        BackendOpView::SplitPane { into: HandleView::Split(n), .. } => Some(n),
        _ => None,
    }
}

/// The splits are numbered in the order they are made, from above `low` up to
/// `high`.
pub open spec fn splits_rise(ops: Seq<BackendOpView>, low: int, high: int) -> bool {
    &&& forall|i: int|
        0 <= i < ops.len() && split_number(#[trigger] ops[i]) is Some ==> low < split_number(
            ops[i],
        )->0 <= high
    &&& forall|i: int, j: int|
        0 <= i < j < ops.len() && split_number(#[trigger] ops[i]) is Some && split_number(
            #[trigger] ops[j],
        ) is Some ==> split_number(ops[i])->0 < split_number(ops[j])->0
}

proof fn lemma_splits_rise_on(
    a: Seq<BackendOpView>,
    b: Seq<BackendOpView>,
    low: int,
    middle: int,
    high: int,
)
    requires
        low <= middle <= high,
        splits_rise(a, low, middle),
        splits_rise(b, middle, high),
    ensures
        splits_rise(a + b, low, high),
{
    let all = a + b;
    assert forall|i: int|
        0 <= i < all.len() && split_number(#[trigger] all[i]) is Some implies low < split_number(
        all[i],
    )->0 <= high by {
        if i < a.len() {
            assert(all[i] == a[i]);
        } else {
            assert(all[i] == b[i - a.len()]);
        }
    }
    assert forall|i: int, j: int|
        0 <= i < j < all.len() && split_number(#[trigger] all[i]) is Some && split_number(
            #[trigger] all[j],
        ) is Some implies split_number(all[i])->0 < split_number(all[j])->0 by {
        if j < a.len() {
            assert(all[i] == a[i] && all[j] == a[j]);
        } else if i < a.len() {
            assert(all[i] == a[i] && all[j] == b[j - a.len()]);
        } else {
            assert(all[i] == b[i - a.len()] && all[j] == b[j - a.len()]);
        }
    }
}

proof fn lemma_splits_rise_in_panes(ws: config::WorkspaceView, t: int, n: int)
    requires
        0 <= t < ws.tabs.len(),
        0 <= n <= ws.tabs[t].panes.len(),
    ensures
        splits_rise(
            engine::panes_ops(ws, t, n),
            engine::splits_before(ws.tabs, t) as int,
            engine::splits_before(ws.tabs, t) + if n <= 1 {
                0
            } else {
                n - 1
            },
        ),
    decreases n,
{
    if n > 0 {
        lemma_splits_rise_in_panes(ws, t, n - 1);
        let low = engine::splits_before(ws.tabs, t) as int;
        let middle = low + if n - 1 <= 1 {
            0
        } else {
            n - 2
        };
        let high = low + if n <= 1 {
            0
        } else {
            n - 1
        };
        let ops = engine::pane_ops(ws, t, n - 1);
        assert(splits_rise(ops, middle, high));
        lemma_splits_rise_on(engine::panes_ops(ws, t, n - 1), ops, low, middle, high);
    }
}

proof fn lemma_splits_rise_in_tabs(ws: config::WorkspaceView, n: int)
    requires
        0 <= n <= ws.tabs.len(),
    ensures
        splits_rise(engine::tabs_ops(ws, n), 0, engine::splits_before(ws.tabs, n) as int),
    decreases n,
{
    if n > 0 {
        lemma_splits_rise_in_tabs(ws, n - 1);
        let middle = engine::splits_before(ws.tabs, n - 1) as int;
        let high = engine::splits_before(ws.tabs, n) as int;
        let panes = ws.tabs[n - 1].panes.len() as int;
        lemma_splits_rise_in_panes(ws, n - 1, panes);
        assert(splits_rise(engine::tab_head(ws, n - 1), middle, middle));
        lemma_splits_rise_on(
            engine::tabs_ops(ws, n - 1),
            engine::tab_head(ws, n - 1),
            0,
            middle,
            middle,
        );
        lemma_splits_rise_on(
            engine::tabs_ops(ws, n - 1) + engine::tab_head(ws, n - 1),
            engine::panes_ops(ws, n - 1, panes),
            0,
            middle,
            high,
        );
    }
}

/// Within a workspace no two splits give their panes the same handle: they are
/// numbered in the order they are made.
pub proof fn law_split_handles_are_distinct(ws: config::WorkspaceView)
    ensures
        splits_rise(
            engine::workspace_plan(ws),
            0,
            engine::splits_before(ws.tabs, ws.tabs.len() as int) as int,
        ),
{
    let high = engine::splits_before(ws.tabs, ws.tabs.len() as int) as int;
    lemma_splits_rise_in_tabs(ws, ws.tabs.len() as int);
    let head = seq![engine::workspace_op(ws)];
    assert(splits_rise(head, 0, 0));
    lemma_splits_rise_on(head, engine::tabs_ops(ws, ws.tabs.len() as int), 0, 0, high);
}

/// The plan of two layouts one after the other is the plan of the first
/// followed by the plan of the second: workspaces do not depend on each other.
pub proof fn law_plans_concatenate(
    a: Seq<config::WorkspaceView>,
    b: Seq<config::WorkspaceView>,
)
    ensures
        engine::file_plan(a + b) == engine::file_plan(a) + engine::file_plan(b),
{
    lemma_plans_concatenate(a, b, b.len() as int);
    assert(engine::file_plan(a + b) == engine::workspaces_plan(
        a + b,
        a.len() as int + b.len(),
    ));
}

proof fn lemma_plans_concatenate(
    a: Seq<config::WorkspaceView>,
    b: Seq<config::WorkspaceView>,
    n: int,
)
    requires
        0 <= n <= b.len(),
    ensures
        engine::workspaces_plan(a + b, a.len() + n) == engine::workspaces_plan(a, a.len() as int)
            + engine::workspaces_plan(b, n),
    decreases n,
{
    if n == 0 {
        lemma_plan_of_prefix(a, b, a.len() as int);
        assert(engine::workspaces_plan(a, a.len() as int) + engine::workspaces_plan(b, 0)
            =~= engine::workspaces_plan(a, a.len() as int));
    } else {
        lemma_plans_concatenate(a, b, n - 1);
        assert((a + b)[a.len() + n - 1] == b[n - 1]);
        assert(engine::workspaces_plan(a + b, a.len() + n) =~= engine::workspaces_plan(
            a,
            a.len() as int,
        ) + engine::workspaces_plan(b, n));
    }
}

proof fn lemma_plan_of_prefix(
    a: Seq<config::WorkspaceView>,
    b: Seq<config::WorkspaceView>,
    n: int,
)
    requires
        n <= a.len(),
    ensures
        engine::workspaces_plan(a + b, n) == engine::workspaces_plan(a, n),
    decreases n,
{
    if n > 0 {
        lemma_plan_of_prefix(a, b, n - 1);
        assert((a + b)[n - 1] == a[n - 1]);
    }
}

/// An absolute path at any level replaces everything above it.
pub proof fn law_absolute_paths_replace_what_is_above(
    root: Option<Seq<char>>,
    tab_cwd: Option<Seq<char>>,
    pane_cwd: Option<Seq<char>>,
    absolute: Seq<char>,
)
    requires
        path::absolute(absolute),
    ensures
        engine::resolved_cwd(root, tab_cwd, Some(absolute)) == Some(path::normalized(absolute)),
        engine::resolved_cwd(root, Some(absolute), pane_cwd) == engine::resolved_cwd(
            None,
            Some(absolute),
            pane_cwd,
        ),
{
}

/// In a workspace with an absolute root every directory is absolute, whatever
/// its tabs and panes say.
pub proof fn law_directories_are_absolute(
    root: Seq<char>,
    tab_cwd: Option<Seq<char>>,
    pane_cwd: Option<Seq<char>>,
)
    requires
        path::absolute(root),
    ensures
        ({
            let cwd = engine::resolved_cwd(Some(root), tab_cwd, pane_cwd);
            cwd is Some && path::absolute(cwd->0)
        }),
{
    let base = engine::combined_cwd(Some(root), tab_cwd)->0;
    path::law_normalizing_keeps_root_and_names(root);
    if tab_cwd is Some {
        path::law_normalizing_keeps_root_and_names(path::joined_path(root, tab_cwd->0));
    }
    path::law_normalizing_keeps_root_and_names(base);
    if pane_cwd is Some {
        path::law_normalizing_keeps_root_and_names(path::joined_path(base, pane_cwd->0));
    }
}

/// A pane that is split off as it may be: the first of a tab off nothing, any
/// other off the one before it or one that stands before it and is named by
/// its id.
pub open spec fn proper_source(panes: Seq<config::PaneView>, p: int) -> bool {
    match panes[p].from {
        Some(from) => p > 0 && from.len() > 0 && validate::declares(panes, p, from),
        None => true,
    }
}

/// A pane whose id is its own: not empty, and declared by no pane before it.
pub open spec fn proper_id(panes: Seq<config::PaneView>, p: int) -> bool {
    match panes[p].id {
        Some(id) => id.len() > 0 && !validate::declares(panes, p, id),
        None => true,
    }
}

/// A pane that asks for nothing impossible: a ratio between zero and one, and
/// to wait only for a command it has.
pub open spec fn proper_pane(pane: config::PaneView) -> bool {
    &&& pane.ratio is Some ==> !config::ratio_refused(pane.ratio->0)
    &&& pane.wait_for is Some ==> pane.command is Some
}

/// A tab that has panes, all of them proper.
pub open spec fn proper_tab(tab: config::TabView) -> bool {
    &&& tab.panes.len() > 0
    &&& forall|p: int|
        0 <= p < tab.panes.len() ==> {
            &&& proper_pane(#[trigger] tab.panes[p])
            &&& proper_source(tab.panes, p)
            &&& proper_id(tab.panes, p)
        }
}

/// A layout with nothing amiss: every workspace has a name of its own and
/// proper tabs, and at most one asks for focus.
pub open spec fn proper_layout(file: Seq<config::WorkspaceView>) -> bool {
    &&& forall|i: int|
        0 <= i < file.len() ==> {
            let ws = #[trigger] file[i];
            &&& ws.name.len() > 0
            &&& !validate::name_used(file, i, ws.name)
            &&& forall|t: int| 0 <= t < ws.tabs.len() ==> proper_tab(#[trigger] ws.tabs[t])
        }
    &&& validate::focus_count(file, file.len() as int) <= 1
}

/// The first `n` panes of a tab are split off as they may be, each with an id
/// of its own.
spec fn proper_sources(panes: Seq<config::PaneView>, n: int) -> bool {
    forall|p: int| 0 <= p < n ==> #[trigger] proper_source(panes, p) && proper_id(panes, p)
}

proof fn lemma_one_more_source(panes: Seq<config::PaneView>, n: int)
    requires
        n > 0,
    ensures
        proper_sources(panes, n) == (proper_sources(panes, n - 1) && proper_source(panes, n - 1)
            && proper_id(panes, n - 1)),
{
    if proper_sources(panes, n - 1) && proper_source(panes, n - 1) && proper_id(panes, n - 1) {
        assert forall|p: int| 0 <= p < n implies #[trigger] proper_source(panes, p) && proper_id(
            panes,
            p,
        ) by {
            if p == n - 1 {
            } else {
                assert(0 <= p < n - 1);
            }
        }
    }
    if proper_sources(panes, n) {
        assert(proper_source(panes, n - 1) && proper_id(panes, n - 1));
    }
}

proof fn lemma_no_source_findings(
    ws_name: Seq<char>,
    label: Seq<char>,
    panes: Seq<config::PaneView>,
    n: int,
)
    requires
        0 <= n <= panes.len(),
    ensures
        (validate::source_findings(ws_name, label, panes, n).len() == 0) == proper_sources(panes, n),
    decreases n,
{
    if n > 0 {
        let p = n - 1;
        lemma_no_source_findings(ws_name, label, panes, p);
        lemma_one_more_source(panes, n);
        assert((validate::from_findings(ws_name, label, panes, p).len() == 0) == proper_source(
            panes,
            p,
        ));
        assert((validate::id_findings(ws_name, label, panes, p).len() == 0) == proper_id(panes, p));
    }
}

proof fn lemma_no_pane_findings(ws_name: Seq<char>, panes: Seq<config::PaneView>, n: int)
    requires
        0 <= n <= panes.len(),
    ensures
        (validate::panes_findings(ws_name, panes, n).len() == 0) == (forall|p: int|
            0 <= p < n ==> proper_pane(#[trigger] panes[p])),
    decreases n,
{
    if n > 0 {
        lemma_no_pane_findings(ws_name, panes, n - 1);
        assert((validate::pane_findings(ws_name, panes[n - 1]).len() == 0) == proper_pane(
            panes[n - 1],
        ));
    }
}

proof fn lemma_no_tab_findings(ws_name: Seq<char>, tab: config::TabView)
    ensures
        (validate::tab_findings(ws_name, tab).len() == 0) == proper_tab(tab),
{
    let n = tab.panes.len() as int;
    lemma_no_source_findings(ws_name, validate::label_text(tab), tab.panes, n);
    lemma_no_pane_findings(ws_name, tab.panes, n);
}

proof fn lemma_no_tabs_findings(ws: config::WorkspaceView, n: int)
    requires
        0 <= n <= ws.tabs.len(),
    ensures
        (validate::tabs_findings(ws, n).len() == 0) == (forall|t: int|
            0 <= t < n ==> proper_tab(#[trigger] ws.tabs[t])),
    decreases n,
{
    if n > 0 {
        lemma_no_tabs_findings(ws, n - 1);
        lemma_no_tab_findings(ws.name, ws.tabs[n - 1]);
    }
}

proof fn lemma_no_workspace_findings(file: Seq<config::WorkspaceView>, n: int)
    requires
        0 <= n <= file.len(),
    ensures
        (validate::workspaces_findings(file, n).len() == 0) == (forall|i: int|
            0 <= i < n ==> {
                let ws = #[trigger] file[i];
                &&& ws.name.len() > 0
                &&& !validate::name_used(file, i, ws.name)
                &&& forall|t: int| 0 <= t < ws.tabs.len() ==> proper_tab(#[trigger] ws.tabs[t])
            }),
    decreases n,
{
    if n > 0 {
        lemma_no_workspace_findings(file, n - 1);
        let ws = file[n - 1];
        lemma_no_tabs_findings(ws, ws.tabs.len() as int);
    }
}

/// Validation finds nothing exactly where nothing is amiss.
pub proof fn law_validation_is_exact(file: Seq<config::WorkspaceView>)
    ensures
        (validate::file_findings(file).len() == 0) == proper_layout(file),
{
    lemma_no_workspace_findings(file, file.len() as int);
}

/// A validated layout can be planned: every pane that names the pane to split
/// off names one that exists. The number of panes is a matter of memory.
pub proof fn law_validated_layouts_can_be_planned(file: Seq<config::WorkspaceView>)
    requires
        validate::file_findings(file).len() == 0,
        forall|i: int|
            0 <= i < file.len() ==> engine::splits_before(
                (#[trigger] file[i]).tabs,
                file[i].tabs.len() as int,
            ) < usize::MAX,
    ensures
        engine::plannable_file(file),
{
    law_validation_is_exact(file);
    assert forall|i: int| 0 <= i < file.len() implies engine::plannable(#[trigger] file[i]) by {
        let ws = file[i];
        assert forall|t: int| 0 <= t < ws.tabs.len() implies engine::sources_exist(
            (#[trigger] ws.tabs[t]).panes,
        ) by {
            let panes = ws.tabs[t].panes;
            assert(proper_tab(ws.tabs[t]));
            assert forall|p: int|
                1 <= p < panes.len() && (#[trigger] panes[p]).from is Some implies
                engine::last_with_id(panes, p, panes[p].from->0) is Some by {
                let id = panes[p].from->0;
                assert(proper_pane(panes[p]));
                assert(proper_source(panes, p));
                engine::lemma_last_with_id(panes, p, id);
                let q = choose|q: int| 0 <= q < p && (#[trigger] panes[q]).id == Some(id);
                assert(panes[q].id == Some(id));
            }
        }
    }
}

/// What loading accepts has nothing amiss with it, however many files it came
/// from: in particular no two workspaces share a name.
pub proof fn law_loaded_layouts_are_proper(
    loaded: includes::Loaded,
    r: Result<config::SpreadFile, Vec<validate::ValidationFinding>>,
)
    requires
        includes::settled(loaded, r),
    ensures
        r matches Ok(file) ==> proper_layout(file.deep_view()),
{
    law_validation_is_exact(loaded.workspaces);
}

/// Every command that creates something says who gets focus, by its last
/// argument.
pub proof fn law_creation_says_who_gets_focus(
    workspace: backend::WorkspaceOptsView,
    workspace_id: Seq<char>,
    tab: backend::TabOptsView,
    from_pane: Seq<char>,
    direction: Seq<char>,
    split: backend::SplitOptsView,
)
    ensures
        cli::workspace_create(workspace).last() == cli::focus_arg(workspace.focus),
        cli::tab_create(workspace_id, tab).last() == cli::focus_arg(tab.focus),
        cli::pane_split(from_pane, direction, split).last() == cli::focus_arg(split.focus),
{
}

proof fn lemma_under(
    key: Seq<char>,
    contents: Map<Seq<char>, json::JsonNodeView>,
    pointer: Seq<char>,
)
    requires
        contents.contains_key(pointer),
    ensures
        json::under(key, contents).contains_key(
            json::field_pointer(Seq::empty(), key) + pointer,
        ),
        json::under(key, contents)[json::field_pointer(Seq::empty(), key) + pointer]
            == contents[pointer],
{
    let head = json::field_pointer(Seq::empty(), key);
    assert((head + pointer).skip(head.len() as int) =~= pointer);
}

/// The request that focuses a pane names that pane.
pub proof fn law_focus_requests_name_their_pane(pane_id: Seq<char>)
    ensures
        json::text_at(
            cli::focus_request_contents(pane_id),
            json::field_pointer(json::field_pointer(Seq::empty(), "params"@), "pane_id"@),
        ) == Some(pane_id),
{
    let root = Seq::<char>::empty();
    let params = seq![("pane_id"@, json::text_contents(pane_id))];
    assert(params.drop_last() =~= Seq::empty());
    lemma_under("pane_id"@, json::text_contents(pane_id), root);
    let inner = json::field_pointer(root, "pane_id"@);
    assert(inner + root =~= inner);
    assert(json::object_contents(params) == json::object_contents(
        Seq::empty(),
    ).union_prefer_right(json::under("pane_id"@, json::text_contents(pane_id))));
    assert(json::object_contents(params).contains_key(inner));
    lemma_under("params"@, json::object_contents(params), inner);
    assert(json::field_pointer(root, "params"@) + inner =~= json::field_pointer(
        json::field_pointer(root, "params"@),
        "pane_id"@,
    ));
}

proof fn lemma_pane_ops_are_planned(ws: config::WorkspaceView, t: int, p: int, n: int, k: int)
    requires
        0 <= p < n,
        0 <= k < engine::pane_ops(ws, t, p).len(),
    ensures
        engine::panes_ops(ws, t, n).contains(engine::pane_ops(ws, t, p)[k]),
    decreases n,
{
    let op = engine::pane_ops(ws, t, p)[k];
    let earlier = engine::panes_ops(ws, t, n - 1);
    if p == n - 1 {
        assert(engine::panes_ops(ws, t, n)[earlier.len() + k] == op);
    } else {
        lemma_pane_ops_are_planned(ws, t, p, n - 1, k);
        let i = choose|i: int| 0 <= i < earlier.len() && earlier[i] == op;
        assert(engine::panes_ops(ws, t, n)[i] == op);
    }
}

proof fn lemma_tab_ops_are_planned(ws: config::WorkspaceView, t: int, n: int)
    requires
        0 <= t < n <= ws.tabs.len(),
    ensures
        forall|op: BackendOpView|
            (#[trigger] engine::tab_head(ws, t).contains(op)) ==> engine::tabs_ops(ws, n).contains(
                op,
            ),
        forall|op: BackendOpView|
            (#[trigger] engine::panes_ops(ws, t, ws.tabs[t].panes.len() as int).contains(op))
                ==> engine::tabs_ops(ws, n).contains(op),
    decreases n,
{
    let earlier = engine::tabs_ops(ws, n - 1);
    let head = engine::tab_head(ws, n - 1);
    let panes = engine::panes_ops(ws, n - 1, ws.tabs[n - 1].panes.len() as int);
    let all = engine::tabs_ops(ws, n);
    if t == n - 1 {
        assert forall|op: BackendOpView| (#[trigger] head.contains(op)) implies all.contains(
            op,
        ) by {
            let i = choose|i: int| 0 <= i < head.len() && head[i] == op;
            assert(all[earlier.len() + i] == op);
        }
        assert forall|op: BackendOpView| (#[trigger] panes.contains(op)) implies all.contains(
            op,
        ) by {
            let i = choose|i: int| 0 <= i < panes.len() && panes[i] == op;
            assert(all[earlier.len() + head.len() + i] == op);
        }
    } else {
        lemma_tab_ops_are_planned(ws, t, n - 1);
        assert forall|op: BackendOpView| (#[trigger] earlier.contains(op)) implies all.contains(
            op,
        ) by {
            let i = choose|i: int| 0 <= i < earlier.len() && earlier[i] == op;
            assert(all[i] == op);
        }
    }
}

/// Nothing of a layout is lost: for every pane the plan holds an operation that
/// makes it, with focus if the pane asks for it, one that types what is to be
/// typed into it, if anything is, and one that waits for the output, if there
/// is any to wait for.
pub proof fn law_every_pane_is_built(ws: config::WorkspaceView, t: int, p: int)
    requires
        0 <= t < ws.tabs.len(),
        0 <= p < ws.tabs[t].panes.len(),
    ensures
        exists|i: int|
            0 <= i < engine::workspace_plan(ws).len() && execute::produced(
                #[trigger] engine::workspace_plan(ws)[i],
            ) == Some(engine::handle_of(ws.tabs, t, p)) && (ws.tabs[t].panes[p].focus
                ==> gives_focus(engine::workspace_plan(ws)[i])),
        engine::pane_line(ws, t, p) matches Some(command) ==> engine::workspace_plan(ws).contains(
            BackendOpView::Run { pane: engine::handle_of(ws.tabs, t, p), command },
        ),
        ws.tabs[t].panes[p].command is Some ==> (ws.tabs[t].panes[p].wait_for matches Some(wait)
            ==> engine::workspace_plan(ws).contains(
            BackendOpView::WaitOutput { pane: engine::handle_of(ws.tabs, t, p), wait },
        )),
{
    let plan = engine::workspace_plan(ws);
    let tabs = engine::tabs_ops(ws, ws.tabs.len() as int);
    let ops = engine::pane_ops(ws, t, p);
    let panes = ws.tabs[t].panes;
    lemma_tab_ops_are_planned(ws, t, ws.tabs.len() as int);
    assert forall|op: BackendOpView| (#[trigger] tabs.contains(op)) implies plan.contains(
        op,
    ) by {
        let i = choose|i: int| 0 <= i < tabs.len() && tabs[i] == op;
        assert(plan[i + 1] == op);
    }
    assert forall|k: int| 0 <= k < ops.len() implies plan.contains(#[trigger] ops[k]) by {
        lemma_pane_ops_are_planned(ws, t, p, panes.len() as int, k);
        assert(tabs.contains(ops[k]));
    }
    let split = engine::pane_split(ws, t, p);
    let maker = if p > 0 {
        ops[0]
    } else if t > 0 {
        engine::tab_head(ws, t)[0]
    } else {
        plan[0]
    };
    if p > 0 {
        assert(ops[0] == split[0]);
    } else if t > 0 {
        assert(engine::tab_head(ws, t).contains(maker));
        assert(tabs.contains(maker));
    }
    assert(plan.contains(maker));
    let i = choose|i: int| 0 <= i < plan.len() && plan[i] == maker;
    assert(execute::produced(plan[i]) == Some(engine::handle_of(ws.tabs, t, p)));
    let start = engine::pane_start(ws, t, p);
    assert forall|k: int| 0 <= k < start.len() implies plan.contains(#[trigger] start[k]) by {
        assert(ops[split.len() + k] == start[k]);
    }
    if engine::pane_line(ws, t, p) is Some {
        assert(start[0] == BackendOpView::Run {
            pane: engine::handle_of(ws.tabs, t, p),
            command: engine::pane_line(ws, t, p)->0,
        });
        if panes[p].command is Some && panes[p].wait_for is Some {
            assert(start[1] == BackendOpView::WaitOutput {
                pane: engine::handle_of(ws.tabs, t, p),
                wait: panes[p].wait_for->0,
            });
        }
    }
}

} // verus!
