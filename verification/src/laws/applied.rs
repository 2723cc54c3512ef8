//! What carrying out a plan does to herdr.

use vstd::prelude::*;

use crate::backend;
use crate::backend::{Call, Exchange, Reply};
use crate::config;
use crate::engine;
use crate::engine::execute;
use crate::engine::{BackendOpView, HandleView};
use crate::laws::built;
use crate::laws::built::{BuiltPane, BuiltTab, BuiltWorkspace, Moment, Place, Session, Stage};

verus! {

/// Answer `j` is the last of the first `n` that says a workspace was created.
pub open spec fn last_workspace(trace: Seq<Exchange>, n: int, j: int) -> bool {
    &&& 0 <= j < n
    &&& trace[j].reply is WorkspaceCreated
    &&& forall|k: int| j < k < n ==> !((#[trigger] trace[k]).reply is WorkspaceCreated)
}

/// An operation makes the pane that a handle stands for: the first pane of a
/// workspace and of a tab comes with it, any other is split off.
pub open spec fn makes(op: BackendOpView, handle: HandleView) -> bool {
    match op {
        BackendOpView::CreateWorkspace(_) => handle == HandleView::TabRoot(0),
        BackendOpView::CreateTab { index, .. } => handle == HandleView::TabRoot(index),
        BackendOpView::SplitPane { into, .. } => handle == into,
        _ => false,
    }
}

/// Operation `j` is the last of the first `n` that makes the pane that a handle
/// stands for.
pub open spec fn last_maker(
    plan: Seq<BackendOpView>,
    n: int,
    handle: HandleView,
    j: int,
) -> bool {
    &&& 0 <= j < n
    &&& makes(plan[j], handle)
    &&& forall|k: int| j < k < n ==> !makes(#[trigger] plan[k], handle)
}

/// The id of the pane that an answer says was made.
pub open spec fn pane_given(reply: Reply) -> Option<Seq<char>> {
    match reply {
        Reply::WorkspaceCreated(created) => Some(created.root_pane_id),
        Reply::TabCreated(created) => Some(created.root_pane_id),
        Reply::PaneCreated(pane_id) => Some(pane_id),
        _ => None,
    }
}

/// The id of the tab that an answer says was made.
pub open spec fn tab_given(reply: Reply) -> Option<Seq<char>> {
    match reply {
        Reply::WorkspaceCreated(created) => Some(created.tab_id),
        Reply::TabCreated(created) => Some(created.tab_id),
        _ => None,
    }
}

/// A pane's id came back in the answer to the last operation that made the pane
/// that a handle stands for.
pub open spec fn came_back_for(
    plan: Seq<BackendOpView>,
    trace: Seq<Exchange>,
    n: int,
    handle: HandleView,
    id: Seq<char>,
) -> bool {
    exists|j: int| #[trigger]
        last_maker(plan, n, handle, j) && pane_given(trace[j].reply) == Some(id)
}

/// An id came back as that of the workspace that was created last.
pub open spec fn is_last_workspace(trace: Seq<Exchange>, n: int, id: Seq<char>) -> bool {
    exists|j: int| #[trigger]
        last_workspace(trace, n, j) && trace[j].reply->WorkspaceCreated_0.workspace_id == id
}

/// An id came back as that of the first tab of the workspace that was created
/// last.
pub open spec fn is_first_tab_of_last_workspace(
    trace: Seq<Exchange>,
    n: int,
    id: Seq<char>,
) -> bool {
    exists|j: int| #[trigger]
        last_workspace(trace, n, j) && trace[j].reply->WorkspaceCreated_0.tab_id == id
}

/// What is known came back in the newest answer that says it.
proof fn lemma_known_is_newest(plan: Seq<BackendOpView>, trace: Seq<Exchange>, n: int)
    requires
        0 <= n <= plan.len(),
        n <= trace.len(),
        forall|i: int| 0 <= i < n ==> execute::done(plan[i], (#[trigger] trace[i]).reply),
    ensures
        ({
            let known = execute::known_after(plan, trace, n);
            &&& known.workspace_id matches Some(id) ==> is_last_workspace(trace, n, id)
            &&& known.tab0_id matches Some(id) ==> is_first_tab_of_last_workspace(trace, n, id)
            &&& forall|h: HandleView| #[trigger]
                known.panes.contains_key(h) ==> came_back_for(plan, trace, n, h, known.panes[h])
        }),
    decreases n,
{
    if n > 0 {
        lemma_known_is_newest(plan, trace, n - 1);
        let before = execute::known_after(plan, trace, n - 1);
        let known = execute::known_after(plan, trace, n);
        let op = plan[n - 1];
        let reply = trace[n - 1].reply;
        assert(execute::done(op, reply));
        if op is CreateWorkspace {
            assert(last_workspace(trace, n, n - 1));
        } else {
            assert(!(reply is WorkspaceCreated));
            if known.workspace_id is Some {
                let j = choose|j: int| #[trigger]
                    last_workspace(trace, n - 1, j)
                        && trace[j].reply->WorkspaceCreated_0.workspace_id
                        == known.workspace_id->0;
                assert(last_workspace(trace, n, j));
            }
            if known.tab0_id is Some {
                let j = choose|j: int| #[trigger]
                    last_workspace(trace, n - 1, j) && trace[j].reply->WorkspaceCreated_0.tab_id
                        == known.tab0_id->0;
                assert(last_workspace(trace, n, j));
            }
        }
        assert forall|h: HandleView| #[trigger] known.panes.contains_key(h) implies came_back_for(
            plan,
            trace,
            n,
            h,
            known.panes[h],
        ) by {
            if makes(op, h) {
                assert(last_maker(plan, n, h, n - 1));
                assert(pane_given(reply) == Some(known.panes[h]));
            } else {
                assert(before.panes.contains_key(h));
                let j = choose|j: int| #[trigger]
                    last_maker(plan, n - 1, h, j) && pane_given(trace[j].reply) == Some(
                        before.panes[h],
                    );
                assert(last_maker(plan, n, h, j));
            }
        }
    }
}

/// A request asks for what its operation says, of whatever herdr said stands
/// for it: a tab is created in the workspace that was created last, whose
/// first tab is the one that is renamed; a pane is split, typed into and waited
/// for by the id that came back when it was made.
pub open spec fn asks_for(
    plan: Seq<BackendOpView>,
    trace: Seq<Exchange>,
    i: int,
) -> bool {
    match (plan[i], trace[i].call) {
        (BackendOpView::CreateWorkspace(planned), Call::CreateWorkspace(opts)) => opts == planned,
        (
            BackendOpView::RenameFirstTab { label: planned },
            Call::RenameTab { tab_id, label },
        ) => {
            &&& label == planned
            &&& is_first_tab_of_last_workspace(trace, i, tab_id)
        },
        (
            BackendOpView::CreateTab { opts: planned, .. },
            Call::CreateTab { workspace_id, opts },
        ) => {
            &&& opts == planned
            &&& is_last_workspace(trace, i, workspace_id)
        },
        (
            BackendOpView::SplitPane { from, opts: planned, .. },
            Call::SplitPane { from_pane, opts },
        ) => {
            &&& opts == planned
            &&& came_back_for(plan, trace, i, from, from_pane)
        },
        (
            BackendOpView::Run { pane, command: planned },
            Call::Run { pane_id, command },
        ) => {
            &&& command == planned
            &&& came_back_for(plan, trace, i, pane, pane_id)
        },
        (
            BackendOpView::WaitOutput { pane, wait: planned },
            Call::WaitOutput { pane_id, wait },
        ) => {
            &&& wait == planned
            &&& came_back_for(plan, trace, i, pane, pane_id)
        },
        _ => false,
    }
}

/// Every request asks for what its operation says, of what herdr's newest
/// answers say stands for it. So a tab goes into the workspace that was created
/// last, and what belongs to a pane goes to that pane.
pub proof fn law_requests_use_the_newest_answers(
    plan: Seq<BackendOpView>,
    trace: Seq<Exchange>,
)
    requires
        execute::well_ordered(plan),
        execute::follows_plan(plan, trace),
    ensures
        trace.len() <= plan.len(),
        forall|i: int| 0 <= i < trace.len() ==> #[trigger] asks_for(plan, trace, i),
{
    assert forall|i: int| 0 <= i < trace.len() implies #[trigger] asks_for(plan, trace, i) by {
        assert(trace[i].call == execute::call_for(execute::known_after(plan, trace, i), plan[i]));
        assert(execute::ready(plan.take(i), plan[i]));
        assert forall|k: int| 0 <= k < i implies execute::done(
            plan[k],
            (#[trigger] trace[k]).reply,
        ) by {}
        execute::lemma_made_is_known(plan, trace, i);
        lemma_known_is_newest(plan, trace, i);
    }
}

/// Building a layout asks for exactly what its plan says, each tab in the
/// workspace that was created last and each pane by the id that came back when
/// it was made.
pub proof fn law_applying_uses_the_newest_answers(
    file: Seq<config::WorkspaceView>,
    trace: Seq<Exchange>,
)
    requires
        engine::plannable_file(file),
        execute::follows_plan(engine::file_plan(file), trace),
    ensures
        forall|i: int|
            0 <= i < trace.len() ==> #[trigger] asks_for(engine::file_plan(file), trace, i),
        forall|i: int|
            0 <= i < trace.len() ==> {
                &&& (#[trigger] trace[i]).call matches Call::CreateTab { workspace_id, .. }
                    ==> is_last_workspace(trace, i, workspace_id)
                &&& trace[i].call matches Call::RenameTab { tab_id, .. }
                    ==> is_first_tab_of_last_workspace(trace, i, tab_id)
            },
{
    let plan = engine::file_plan(file);
    execute::law_plans_are_well_ordered(file);
    law_requests_use_the_newest_answers(plan, trace);
    assert forall|i: int| 0 <= i < trace.len() implies {
        &&& (#[trigger] trace[i]).call matches Call::CreateTab { workspace_id, .. }
            ==> is_last_workspace(trace, i, workspace_id)
        &&& trace[i].call matches Call::RenameTab { tab_id, .. }
            ==> is_first_tab_of_last_workspace(trace, i, tab_id)
    } by {
        assert(asks_for(plan, trace, i));
    }
}

/// Carrying out a plan ends with the plan, or with the first request that herdr
/// refuses, whose error it reports.
pub proof fn law_the_first_refusal_ends_it(
    plan: Seq<BackendOpView>,
    trace: Seq<Exchange>,
    r: Result<(), execute::EngineError>,
)
    requires
        execute::follows_plan(plan, trace),
        execute::outcome_of(plan, trace, r),
    ensures
        match r {
            Ok(()) => {
                &&& trace.len() == plan.len()
                &&& forall|i: int|
                    0 <= i < trace.len() ==> !((#[trigger] trace[i]).reply is Failed)
            },
            Err(execute::EngineError::Backend(e)) => {
                &&& 0 < trace.len() <= plan.len()
                &&& trace.last().reply == Reply::Failed(e.deep_view())
                &&& forall|i: int|
                    0 <= i < trace.len() - 1 ==> !((#[trigger] trace[i]).reply is Failed)
            },
        },
{
}

/// What herdr holds, by the ids that it gave.
#[verifier::ext_equal]
pub struct Herdr {
    pub workspaces: Seq<BuiltWorkspace>,
    pub workspace_ids: Map<Seq<char>, int>,
    /// The place of a tab's workspace, and its own.
    pub tab_ids: Map<Seq<char>, (int, int)>,
    pub pane_ids: Map<Seq<char>, Place>,
    pub moments: Seq<Moment>,
}

/// Nothing was asked of herdr.
pub open spec fn untouched() -> Herdr {
    Herdr {
        workspaces: Seq::empty(),
        workspace_ids: Map::empty(),
        tab_ids: Map::empty(),
        pane_ids: Map::empty(),
        moments: Seq::empty(),
    }
}

/// Herdr with another tab in place of one.
pub open spec fn with_tab(herdr: Herdr, w: int, t: int, tab: BuiltTab) -> Herdr {
    let workspace = herdr.workspaces[w];
    Herdr {
        workspaces: herdr.workspaces.update(
            w,
            BuiltWorkspace { tabs: workspace.tabs.update(t, tab), ..workspace },
        ),
        ..herdr
    }
}

/// Herdr with another pane in place of one, to which something has happened.
pub open spec fn with_pane(herdr: Herdr, place: Place, pane: BuiltPane, stage: Stage) -> Herdr {
    let tab = herdr.workspaces[place.w].tabs[place.t];
    let changed = with_tab(
        herdr,
        place.w,
        place.t,
        BuiltTab { panes: tab.panes.update(place.p, pane), ..tab },
    );
    Herdr { moments: herdr.moments.push(Moment { place, stage }), ..changed }
}

/// The pane at a place.
pub open spec fn pane_at(herdr: Herdr, place: Place) -> BuiltPane {
    herdr.workspaces[place.w].tabs[place.t].panes[place.p]
}

/// Herdr with an id for the pane at a place, which has just been made.
pub open spec fn with_pane_id(herdr: Herdr, id: Seq<char>, place: Place) -> Herdr {
    Herdr {
        pane_ids: herdr.pane_ids.insert(id, place),
        moments: herdr.moments.push(Moment { place, stage: Stage::Made }),
        ..herdr
    }
}

/// What herdr holds after one more request that it carried out.
pub open spec fn asked(herdr: Herdr, exchange: Exchange) -> Herdr {
    match (exchange.call, exchange.reply) {
        (Call::CreateWorkspace(opts), Reply::WorkspaceCreated(created)) => {
            let w = herdr.workspaces.len() as int;
            let tab = BuiltTab { label: None, opts: None, panes: seq![built::fresh_pane()] };
            with_pane_id(
                Herdr {
                    workspaces: herdr.workspaces.push(BuiltWorkspace { opts, tabs: seq![tab] }),
                    workspace_ids: herdr.workspace_ids.insert(created.workspace_id, w),
                    tab_ids: herdr.tab_ids.insert(created.tab_id, (w, 0)),
                    ..herdr
                },
                created.root_pane_id,
                Place { w, t: 0, p: 0 },
            )
        },
        (Call::RenameTab { tab_id, label }, _) => {
            let (w, t) = herdr.tab_ids[tab_id];
            with_tab(
                herdr,
                w,
                t,
                BuiltTab { label: Some(label), ..herdr.workspaces[w].tabs[t] },
            )
        },
        (Call::CreateTab { workspace_id, opts }, Reply::TabCreated(created)) => {
            let w = herdr.workspace_ids[workspace_id];
            let workspace = herdr.workspaces[w];
            let t = workspace.tabs.len() as int;
            let tab = BuiltTab {
                label: opts.label,
                opts: Some(opts),
                panes: seq![built::fresh_pane()],
            };
            with_pane_id(
                Herdr {
                    workspaces: herdr.workspaces.update(
                        w,
                        BuiltWorkspace { tabs: workspace.tabs.push(tab), ..workspace },
                    ),
                    tab_ids: herdr.tab_ids.insert(created.tab_id, (w, t)),
                    ..herdr
                },
                created.root_pane_id,
                Place { w, t, p: 0 },
            )
        },
        (Call::SplitPane { from_pane, opts }, Reply::PaneCreated(pane_id)) => {
            let source = herdr.pane_ids[from_pane];
            let tab = herdr.workspaces[source.w].tabs[source.t];
            let pane = BuiltPane { split: Some((source.p, opts)), ..built::fresh_pane() };
            with_pane_id(
                with_tab(
                    herdr,
                    source.w,
                    source.t,
                    BuiltTab { panes: tab.panes.push(pane), ..tab },
                ),
                pane_id,
                Place { p: tab.panes.len() as int, ..source },
            )
        },
        (Call::Run { pane_id, command }, _) => {
            let place = herdr.pane_ids[pane_id];
            let pane = pane_at(herdr, place);
            with_pane(
                herdr,
                place,
                BuiltPane { typed: pane.typed.push(command), ..pane },
                Stage::Typed,
            )
        },
        (Call::WaitOutput { pane_id, wait }, _) => {
            let place = herdr.pane_ids[pane_id];
            let pane = pane_at(herdr, place);
            with_pane(
                herdr,
                place,
                BuiltPane { awaited: pane.awaited.push(wait), ..pane },
                Stage::Awaited,
            )
        },
        _ => herdr,
    }
}

/// What herdr holds after the first `n` requests.
pub open spec fn herdr_after(trace: Seq<Exchange>, n: int) -> Herdr
    decreases n,
{
    if n <= 0 {
        untouched()
    } else {
        asked(herdr_after(trace, n - 1), trace[n - 1])
    }
}

/// Herdr never gives the same id to two panes, or to two tabs.
pub open spec fn ids_differ(trace: Seq<Exchange>) -> bool {
    forall|i: int, j: int|
        0 <= i < j < trace.len() ==> {
            &&& pane_given((#[trigger] trace[i]).reply) is Some ==> pane_given(trace[i].reply)
                != pane_given((#[trigger] trace[j]).reply)
            &&& tab_given(trace[i].reply) is Some ==> tab_given(trace[i].reply) != tab_given(
                trace[j].reply,
            )
        }
}

/// What herdr holds is what the operations so far build, and ids stand for what
/// handles stand for.
spec fn mirrors(herdr: Herdr, session: Session, known: execute::Known) -> bool {
    let last = session.workspaces.len() - 1;
    &&& herdr.workspaces == session.workspaces
    &&& herdr.moments == session.moments
    &&& known.workspace_id matches Some(id) ==> last >= 0 && herdr.workspace_ids[id] == last
    &&& known.tab0_id matches Some(id) ==> last >= 0 && herdr.tab_ids[id] == (last, 0int)
    &&& forall|h: HandleView| #[trigger]
        known.panes.contains_key(h) ==> {
            &&& herdr.pane_ids[known.panes[h]] == session.panes[h]
            &&& 0 <= session.panes[h].w <= last
        }
}

proof fn lemma_mirrors(plan: Seq<BackendOpView>, trace: Seq<Exchange>, n: int)
    requires
        execute::well_ordered(plan),
        execute::follows_plan(plan, trace),
        ids_differ(trace),
        0 <= n <= trace.len(),
        forall|i: int| 0 <= i < n ==> execute::done(plan[i], (#[trigger] trace[i]).reply),
    ensures
        mirrors(
            herdr_after(trace, n),
            built::built_by(built::nothing_built(), plan.take(n)),
            execute::known_after(plan, trace, n),
        ),
    decreases n,
{
    if n == 0 {
        assert(plan.take(0) =~= Seq::<BackendOpView>::empty());
    } else {
        lemma_mirrors(plan, trace, n - 1);
        let op = plan[n - 1];
        let exchange = trace[n - 1];
        let known = execute::known_after(plan, trace, n - 1);
        let herdr = herdr_after(trace, n - 1);
        let session = built::built_by(built::nothing_built(), plan.take(n - 1));
        assert(plan.take(n).drop_last() =~= plan.take(n - 1));
        assert(plan.take(n).last() == op);
        assert(exchange.call == execute::call_for(known, op));
        assert(execute::done(op, exchange.reply));
        assert(execute::ready(plan.take(n - 1), op));
        execute::lemma_made_is_known(plan, trace, n - 1);
        lemma_known_is_newest(plan, trace, n - 1);
        assert forall|h: HandleView| #[trigger] known.panes.contains_key(h) implies pane_given(
            exchange.reply,
        ) != Some(known.panes[h]) by {
            let j = choose|j: int| #[trigger]
                last_maker(plan, n - 1, h, j) && pane_given(trace[j].reply) == Some(
                    known.panes[h],
                );
            assert(pane_given(trace[j].reply) != pane_given(trace[n - 1].reply));
        }
        if known.tab0_id is Some {
            let j = choose|j: int| #[trigger]
                last_workspace(trace, n - 1, j) && trace[j].reply->WorkspaceCreated_0.tab_id
                    == known.tab0_id->0;
            assert(tab_given(trace[j].reply) != tab_given(trace[n - 1].reply));
        }
        lemma_mirrors_one_more(herdr, session, known, op, exchange);
    }
}

proof fn lemma_mirrors_one_more(
    herdr: Herdr,
    session: Session,
    known: execute::Known,
    op: BackendOpView,
    exchange: Exchange,
)
    requires
        mirrors(herdr, session, known),
        exchange.call == execute::call_for(known, op),
        execute::done(op, exchange.reply),
        op is RenameFirstTab ==> known.tab0_id is Some,
        op is CreateTab ==> known.workspace_id is Some,
        execute::needed(op) is Some ==> known.panes.contains_key(execute::needed(op)->0),
        known.tab0_id matches Some(id) ==> tab_given(exchange.reply) != Some(id),
        forall|h: HandleView| #[trigger]
            known.panes.contains_key(h) ==> pane_given(exchange.reply) != Some(known.panes[h]),
    ensures
        mirrors(
            asked(herdr, exchange),
            built::built_on(session, op),
            execute::learned(known, op, exchange.reply),
        ),
{
    let later = execute::learned(known, op, exchange.reply);
    let after = built::built_on(session, op);
    let herdr_later = asked(herdr, exchange);
    assert forall|h: HandleView| #[trigger] later.panes.contains_key(h) implies
        herdr_later.pane_ids[later.panes[h]] == after.panes[h] && 0 <= after.panes[h].w
        < after.workspaces.len() by {
        if !makes(op, h) {
            assert(known.panes.contains_key(h));
        }
    }
}

/// Applying a layout builds it in herdr, all of it and nothing else, however
/// herdr numbers what it makes: whatever is asked of an id is asked of the
/// workspace, tab or pane that the layout means.
pub proof fn law_applying_builds_the_layout(
    file: Seq<config::WorkspaceView>,
    trace: Seq<Exchange>,
)
    requires
        engine::plannable_file(file),
        execute::follows_plan(engine::file_plan(file), trace),
        execute::outcome_of(engine::file_plan(file), trace, Ok(())),
        ids_differ(trace),
    ensures
        ({
            let herdr = herdr_after(trace, trace.len() as int);
            &&& herdr.workspaces.len() == file.len()
            &&& forall|i: int|
                0 <= i < file.len() ==> built::workspace_as_laid_out(
                    #[trigger] herdr.workspaces[i],
                    file[i],
                )
            &&& built::in_order(herdr.moments)
        }),
{
    let plan = engine::file_plan(file);
    execute::law_plans_are_well_ordered(file);
    assert forall|i: int| 0 <= i < trace.len() implies execute::done(
        plan[i],
        (#[trigger] trace[i]).reply,
    ) by {}
    lemma_mirrors(plan, trace, trace.len() as int);
    assert(plan.take(trace.len() as int) =~= plan);
    built::law_plans_build_the_layout(file);
}

} // verus!
