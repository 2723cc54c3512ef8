//! Plans carried out.

use vstd::prelude::*;

use crate::backend;
use crate::backend::{BackendError, HerdrBackend};
use crate::config;
use crate::config::SpreadFile;
use crate::engine;
use crate::engine::{plan_file, BackendOp, BackendOpView, HandleView, PaneHandle};

verus! {

/// Why a plan was not carried out to its end.
#[derive(Debug, PartialEq)]
pub enum EngineError {
    /// Herdr refused one of the requests.
    Backend(BackendError),
}

impl From<BackendError> for EngineError {
    fn from(e: BackendError) -> (r: EngineError) {
        EngineError::Backend(e)
    }
}

impl vstd::std_specs::convert::FromSpecImpl<BackendError> for EngineError {
    open spec fn obeys_from_spec() -> bool {
        true
    }

    open spec fn from_spec(e: BackendError) -> EngineError {
        EngineError::Backend(e)
    }
}

impl EngineError {
    /// The error in words: those of what herdr refused.
    pub open spec fn text(&self) -> Seq<char> {
        match self {
            EngineError::Backend(e) => e.text(),
        }
    }

    /// The error in words.
    pub fn to_string(&self) -> (text: String)
        ensures
            text@ == self.text(),
    {
        match self {
            EngineError::Backend(e) => e.to_string(),
        }
    }
}

/// The ids that herdr has given so far.
pub struct Known {
    pub workspace_id: Option<Seq<char>>,
    pub tab0_id: Option<Seq<char>>,
    pub panes: Map<HandleView, Seq<char>>,
}

/// No ids yet.
pub open spec fn nothing_known() -> Known {
    Known { workspace_id: None, tab0_id: None, panes: Map::empty() }
}

/// The request for an operation, with the ids that are known.
pub open spec fn call_for(known: Known, op: BackendOpView) -> backend::Call {
    match op {
        BackendOpView::CreateWorkspace(opts) => backend::Call::CreateWorkspace(opts),
        BackendOpView::RenameFirstTab { label } => backend::Call::RenameTab {
            tab_id: known.tab0_id->0,
            label,
        },
        BackendOpView::CreateTab { index, opts } => backend::Call::CreateTab {
            workspace_id: known.workspace_id->0,
            opts,
        },
        BackendOpView::SplitPane { from, into, opts } => backend::Call::SplitPane {
            from_pane: known.panes[from],
            opts,
        },
        BackendOpView::Run { pane, command } => backend::Call::Run {
            pane_id: known.panes[pane],
            command,
        },
        BackendOpView::WaitOutput { pane, wait } => backend::Call::WaitOutput {
            pane_id: known.panes[pane],
            wait,
        },
    }
}

/// What the answer to the request for an operation adds.
pub open spec fn learned(known: Known, op: BackendOpView, reply: backend::Reply) -> Known {
    match (op, reply) {
        (
            BackendOpView::CreateWorkspace(_),
            backend::Reply::WorkspaceCreated(created),
        ) => Known {
            workspace_id: Some(created.workspace_id),
            tab0_id: Some(created.tab_id),
            panes: known.panes.insert(HandleView::TabRoot(0), created.root_pane_id),
        },
        (BackendOpView::CreateTab { index, .. }, backend::Reply::TabCreated(created)) => Known {
            panes: known.panes.insert(HandleView::TabRoot(index), created.root_pane_id),
            ..known
        },
        (BackendOpView::SplitPane { into, .. }, backend::Reply::PaneCreated(pane_id)) => Known {
            panes: known.panes.insert(into, pane_id),
            ..known
        },
        _ => known,
    }
}

/// The ids known after the first `n` operations of a plan, whose requests were
/// answered as `trace` says.
pub open spec fn known_after(
    plan: Seq<BackendOpView>,
    trace: Seq<backend::Exchange>,
    n: int,
) -> Known
    decreases n,
{
    if n <= 0 {
        nothing_known()
    } else {
        learned(known_after(plan, trace, n - 1), plan[n - 1], trace[n - 1].reply)
    }
}

/// An answer that says the operation was done.
pub open spec fn done(op: BackendOpView, reply: backend::Reply) -> bool {
    match op {
        BackendOpView::CreateWorkspace(_) => reply is WorkspaceCreated,
        BackendOpView::CreateTab { .. } => reply is TabCreated,
        BackendOpView::SplitPane { .. } => reply is PaneCreated,
        _ => reply is Done,
    }
}

/// The requests in `trace` are those for the first operations of the plan, in
/// order and with the ids that came back before; each was answered, and all
/// but perhaps the last one were carried out.
pub open spec fn follows_plan(
    plan: Seq<BackendOpView>,
    trace: Seq<backend::Exchange>,
) -> bool {
    &&& trace.len() <= plan.len()
    &&& forall|i: int|
        0 <= i < trace.len() ==> (#[trigger] trace[i]).call == call_for(
            known_after(plan, trace, i),
            plan[i],
        )
    &&& forall|i: int|
        0 <= i < trace.len() ==> done(plan[i], (#[trigger] trace[i]).reply) || (i == trace.len() - 1
            && trace[i].reply is Failed)
}

/// How carrying out a plan went: to the end, or up to the first request that
/// herdr refused.
pub open spec fn outcome_of(
    plan: Seq<BackendOpView>,
    trace: Seq<backend::Exchange>,
    r: Result<(), EngineError>,
) -> bool {
    match r {
        Ok(()) => {
            &&& trace.len() == plan.len()
            &&& trace.len() > 0 ==> !(trace.last().reply is Failed)
        },
        Err(EngineError::Backend(e)) => {
            &&& trace.len() > 0
            &&& trace.last().reply == backend::Reply::Failed(e.deep_view())
        },
    }
}

/// The handle that an operation gives a pane to, if it makes one.
pub open spec fn produced(op: BackendOpView) -> Option<HandleView> {
    match op {
        BackendOpView::CreateWorkspace(_) => Some(HandleView::TabRoot(0)),
        BackendOpView::CreateTab { index, .. } => Some(HandleView::TabRoot(index)),
        BackendOpView::SplitPane { into, .. } => Some(into),
        _ => None,
    }
}

/// The handle of an existing pane that an operation needs, if it needs one.
pub open spec fn needed(op: BackendOpView) -> Option<HandleView> {
    match op {
        BackendOpView::SplitPane { from, .. } => Some(from),
        BackendOpView::Run { pane, .. } => Some(pane),
        BackendOpView::WaitOutput { pane, .. } => Some(pane),
        _ => None,
    }
}

/// One of the operations creates a workspace.
pub open spec fn creates_workspace(ops: Seq<BackendOpView>) -> bool {
    exists|j: int| 0 <= j < ops.len() && #[trigger] ops[j] is CreateWorkspace
}

/// One of the operations gives a pane to `handle`.
pub open spec fn produces(ops: Seq<BackendOpView>, handle: HandleView) -> bool {
    exists|j: int| 0 <= j < ops.len() && produced(#[trigger] ops[j]) == Some(handle)
}

/// An operation has everything it needs from those before it.
pub open spec fn ready(earlier: Seq<BackendOpView>, op: BackendOpView) -> bool {
    &&& op is RenameFirstTab || op is CreateTab ==> creates_workspace(earlier)
    &&& needed(op) is Some ==> produces(earlier, needed(op)->0)
}

/// No operation uses a workspace, a tab or a pane before it is made.
pub open spec fn well_ordered(plan: Seq<BackendOpView>) -> bool {
    forall|i: int| 0 <= i < plan.len() ==> ready(plan.take(i), #[trigger] plan[i])
}

/// Once operations are done, the ids of all they made are known.
pub proof fn lemma_made_is_known(plan: Seq<BackendOpView>, trace: Seq<backend::Exchange>, n: int)
    requires
        0 <= n <= plan.len(),
        n <= trace.len(),
        forall|i: int| 0 <= i < n ==> done(plan[i], (#[trigger] trace[i]).reply),
    ensures
        creates_workspace(plan.take(n)) ==> known_after(plan, trace, n).workspace_id is Some
            && known_after(plan, trace, n).tab0_id is Some,
        forall|h: HandleView| #[trigger]
            produces(plan.take(n), h) ==> known_after(plan, trace, n).panes.contains_key(h),
    decreases n,
{
    if n > 0 {
        lemma_made_is_known(plan, trace, n - 1);
        let earlier = plan.take(n - 1);
        assert(plan.take(n) == earlier.push(plan[n - 1]));
        assert(done(plan[n - 1], trace[n - 1].reply));
        assert forall|h: HandleView| #[trigger] produces(plan.take(n), h) implies known_after(
            plan,
            trace,
            n,
        ).panes.contains_key(h) by {
            let j = choose|j: int|
                0 <= j < n && produced(#[trigger] plan.take(n)[j]) == Some(h);
            if j < n - 1 {
                assert(produced(earlier[j]) == Some(h));
                assert(produces(earlier, h));
            }
        }
        if creates_workspace(plan.take(n)) && !(plan[n - 1] is CreateWorkspace) {
            let j = choose|j: int| 0 <= j < n && #[trigger] plan.take(n)[j] is CreateWorkspace;
            assert(earlier[j] is CreateWorkspace);
        }
    }
}

/// What is known depends on the answers so far alone.
proof fn lemma_known_prefix(
    plan: Seq<BackendOpView>,
    a: Seq<backend::Exchange>,
    b: Seq<backend::Exchange>,
    n: int,
)
    requires
        n <= a.len(),
        n <= b.len(),
        forall|i: int| 0 <= i < n ==> a[i] == b[i],
    ensures
        known_after(plan, a, n) == known_after(plan, b, n),
    decreases n,
{
    if n > 0 {
        lemma_known_prefix(plan, a, b, n - 1);
    }
}

/// One more request, made with what is known and carried out, still follows
/// the plan.
proof fn lemma_follows_one_more(
    plan: Seq<BackendOpView>,
    trace: Seq<backend::Exchange>,
    next: backend::Exchange,
)
    requires
        follows_plan(plan, trace),
        trace.len() < plan.len(),
        trace.len() > 0 ==> !(trace.last().reply is Failed),
        next.call == call_for(
            known_after(plan, trace, trace.len() as int),
            plan[trace.len() as int],
        ),
        done(plan[trace.len() as int], next.reply) || next.reply is Failed,
    ensures
        follows_plan(plan, trace.push(next)),
        known_after(plan, trace.push(next), trace.len() as int + 1) == learned(
            known_after(plan, trace, trace.len() as int),
            plan[trace.len() as int],
            next.reply,
        ),
{
    let longer = trace.push(next);
    assert forall|i: int| 0 <= i < longer.len() implies (#[trigger] longer[i]).call == call_for(
        known_after(plan, longer, i),
        plan[i],
    ) by {
        lemma_known_prefix(plan, trace, longer, i);
    }
    lemma_known_prefix(plan, trace, longer, trace.len() as int);
    assert forall|i: int| 0 <= i < longer.len() implies done(plan[i], (#[trigger] longer[i]).reply)
        || (i == longer.len() - 1 && longer[i].reply is Failed) by {
        if i < trace.len() {
            assert(longer[i] == trace[i]);
        }
    }
}

/// A history that grew by one exchange is what it was at the start, and what
/// came since.
proof fn lemma_history_grows(
    start: Seq<backend::Exchange>,
    trace: Seq<backend::Exchange>,
    history: Seq<backend::Exchange>,
)
    requires
        history.len() > 0,
        history.drop_last() == start + trace,
    ensures
        history == start + trace.push(history.last()),
        history.take(start.len() as int) == start,
        history.skip(start.len() as int) == trace.push(history.last()),
{
    let longer = trace.push(history.last());
    assert(history =~= history.drop_last().push(history.last()));
    assert(history =~= start + longer);
    assert(history.take(start.len() as int) =~= start);
    assert(history.skip(start.len() as int) =~= longer);
}

/// The ids that came back, by what they stand for.
struct Executor {
    workspace_id: Option<String>,
    tab0_id: Option<String>,
    /// The newest id of a handle stands last.
    panes: Vec<(PaneHandle, String)>,
}

/// The newest id of each handle.
spec fn pane_table(entries: Seq<(HandleView, Seq<char>)>) -> Map<HandleView, Seq<char>>
    decreases entries.len(),
{
    if entries.len() == 0 {
        Map::empty()
    } else {
        pane_table(entries.drop_last()).insert(entries.last().0, entries.last().1)
    }
}

impl Executor {
    spec fn known(&self) -> Known {
        Known {
            workspace_id: self.workspace_id.deep_view(),
            tab0_id: self.tab0_id.deep_view(),
            panes: pane_table(self.panes.deep_view()),
        }
    }

    fn new() -> (ex: Executor)
        ensures
            ex.known() == nothing_known(),
    {
        let panes: Vec<(PaneHandle, String)> = Vec::new();
        assert(panes.deep_view() =~= Seq::<(HandleView, Seq<char>)>::empty());
        Executor { workspace_id: None, tab0_id: None, panes }
    }

    /// Gives a handle its id.
    fn insert(&mut self, handle: PaneHandle, id: String)
        ensures
            final(self).known() == (Known {
                panes: old(self).known().panes.insert(handle.deep_view(), id@),
                ..old(self).known()
            }),
    {
        let ghost earlier = self.panes.deep_view();
        self.panes.push((handle, id));
        proof {
            let later = self.panes.deep_view();
            assert(later =~= earlier.push((handle.deep_view(), id@)));
            assert(later.drop_last() == earlier);
        }
    }

    /// The id of a handle.
    fn pane_id(&self, handle: PaneHandle) -> (id: &str)
        requires
            self.known().panes.contains_key(handle.deep_view()),
        ensures
            id@ == self.known().panes[handle.deep_view()],
    {
        let ghost all = self.panes.deep_view();
        let mut i: usize = self.panes.len();
        assert(all.take(i as int) == all);
        loop
            invariant
                i <= self.panes.len(),
                all == self.panes.deep_view(),
                pane_table(all.take(i as int)).contains_key(handle.deep_view()),
                pane_table(all.take(i as int))[handle.deep_view()]
                    == self.known().panes[handle.deep_view()],
            decreases i,
        {
            if i == 0 {
                assert(pane_table(all.take(0)) == Map::<HandleView, Seq<char>>::empty());
                assert(false);
            }
            proof {
                assert(all.take(i as int).drop_last() == all.take(i - 1));
                assert(all.take(i as int).last() == all[i - 1]);
                assert(all[i - 1] == (
                    self.panes[i - 1].0.deep_view(),
                    self.panes[i - 1].1@,
                ));
            }
            i = i - 1;
            if self.panes[i].0 == handle {
                return self.panes[i].1.as_str();
            }
        }
    }
}

/// Carries out one operation and keeps the ids that come back.
fn execute_op<B: HerdrBackend>(ex: &mut Executor, op: &BackendOp, backend: &mut B) -> (r: Result<
    (),
    BackendError,
>)
    requires
        op is RenameFirstTab ==> old(ex).known().tab0_id is Some,
        op is CreateTab ==> old(ex).known().workspace_id is Some,
        needed(op.deep_view()) is Some ==> old(ex).known().panes.contains_key(
            needed(op.deep_view())->0,
        ),
    ensures
        final(backend).exchanges().len() == old(backend).exchanges().len() + 1,
        final(backend).exchanges().drop_last() == old(backend).exchanges(),
        final(backend).exchanges().last().call == call_for(old(ex).known(), op.deep_view()),
        match r {
            Ok(()) => {
                &&& done(op.deep_view(), final(backend).exchanges().last().reply)
                &&& final(ex).known() == learned(
                    old(ex).known(),
                    op.deep_view(),
                    final(backend).exchanges().last().reply,
                )
            },
            Err(e) => final(backend).exchanges().last().reply == backend::Reply::Failed(
                e.deep_view(),
            ),
        },
{
    match op {
        BackendOp::CreateWorkspace(opts) => match backend.create_workspace(opts) {
            Ok(created) => {
                ex.workspace_id = Some(created.workspace_id);
                ex.tab0_id = Some(created.tab_id);
                ex.insert(PaneHandle::TabRoot(0), created.root_pane_id);
                Ok(())
            },
            Err(e) => Err(e),
        },
        BackendOp::RenameFirstTab { label } => match &ex.tab0_id {
            Some(tab_id) => backend.rename_tab(tab_id.as_str(), label.as_str()),
            None => {
                assert(false);
                Ok(())
            },
        },
        BackendOp::CreateTab { index, opts } => {
            let created = match &ex.workspace_id {
                Some(workspace_id) => backend.create_tab(workspace_id.as_str(), opts),
                None => {
                    assert(false);
                    return Ok(());
                },
            };
            match created {
                Ok(created) => {
                    ex.insert(PaneHandle::TabRoot(*index), created.root_pane_id);
                    Ok(())
                },
                Err(e) => Err(e),
            }
        },
        BackendOp::SplitPane { from, into, opts } => match backend.split_pane(
            ex.pane_id(*from),
            opts,
        ) {
            Ok(pane_id) => {
                ex.insert(*into, pane_id);
                Ok(())
            },
            Err(e) => Err(e),
        },
        BackendOp::Run { pane, command } => backend.run(ex.pane_id(*pane), command.as_str()),
        BackendOp::WaitOutput { pane, wait } => backend.wait_output(ex.pane_id(*pane), wait),
    }
}

/// Carries out a plan: one request for each operation, in order, each with the
/// ids that came back from the ones before it, until herdr refuses one.
///
/// No operation of the plan may use what an earlier one has not made.
///
/// # Errors
///
/// Returns [`EngineError::Backend`] if any backend operation fails.
pub fn execute_plan<B: HerdrBackend>(plan: &Vec<BackendOp>, backend: &mut B) -> (r: Result<
    (),
    EngineError,
>)
    requires
        well_ordered(plan.deep_view()),
    ensures
        final(backend).exchanges().len() >= old(backend).exchanges().len(),
        final(backend).exchanges().take(old(backend).exchanges().len() as int) == old(
            backend,
        ).exchanges(),
        follows_plan(
            plan.deep_view(),
            final(backend).exchanges().skip(old(backend).exchanges().len() as int),
        ),
        outcome_of(
            plan.deep_view(),
            final(backend).exchanges().skip(old(backend).exchanges().len() as int),
            r,
        ),
{
    let ghost view = plan.deep_view();
    let ghost start = backend.exchanges();
    let ghost mut trace = Seq::<backend::Exchange>::empty();
    let mut ex: Executor = Executor::new();
    let mut i: usize = 0;
    assert(start + trace == start);
    while i < plan.len()
        invariant
            i <= plan.len(),
            view == plan.deep_view(),
            well_ordered(view),
            trace.len() == i,
            start == old(backend).exchanges(),
            backend.exchanges() == start + trace,
            backend.exchanges().take(start.len() as int) == start,
            backend.exchanges().skip(start.len() as int) == trace,
            follows_plan(view, trace),
            trace.len() > 0 ==> !(trace.last().reply is Failed),
            ex.known() == known_after(view, trace, i as int),
        decreases plan.len() - i,
    {
        let op: &BackendOp = &plan[i];
        let ghost known = ex.known();
        proof {
            assert(view[i as int] == op.deep_view());
            assert(ready(view.take(i as int), view[i as int]));
            lemma_made_is_known(view, trace, i as int);
        }
        let r: Result<(), BackendError> = execute_op(&mut ex, op, backend);
        proof {
            lemma_history_grows(start, trace, backend.exchanges());
            lemma_follows_one_more(view, trace, backend.exchanges().last());
            trace = trace.push(backend.exchanges().last());
        }
        if let Err(e) = r {
            return Err(EngineError::from(e));
        }
        i = i + 1;
    }
    Ok(())
}

/// What earlier operations made stays made when more come before or after.
proof fn lemma_made_by_part(a: Seq<BackendOpView>, b: Seq<BackendOpView>)
    ensures
        creates_workspace(a) ==> creates_workspace(a + b),
        forall|h: HandleView| #[trigger] produces(a, h) ==> produces(a + b, h),
        creates_workspace(b) ==> creates_workspace(a + b),
        forall|h: HandleView| #[trigger] produces(b, h) ==> produces(a + b, h),
{
    if creates_workspace(a) {
        let j = choose|j: int| 0 <= j < a.len() && #[trigger] a[j] is CreateWorkspace;
        assert((a + b)[j] is CreateWorkspace);
    }
    if creates_workspace(b) {
        let j = choose|j: int| 0 <= j < b.len() && #[trigger] b[j] is CreateWorkspace;
        assert((a + b)[a.len() + j] is CreateWorkspace);
    }
    assert forall|h: HandleView| #[trigger] produces(a, h) implies produces(a + b, h) by {
        let j = choose|j: int| 0 <= j < a.len() && produced(#[trigger] a[j]) == Some(h);
        assert(produced((a + b)[j]) == Some(h));
    }
    assert forall|h: HandleView| #[trigger] produces(b, h) implies produces(a + b, h) by {
        let j = choose|j: int| 0 <= j < b.len() && produced(#[trigger] b[j]) == Some(h);
        assert(produced((a + b)[a.len() + j]) == Some(h));
    }
}

/// An operation that has what it needs can be added to a plan.
proof fn lemma_add_op(plan: Seq<BackendOpView>, op: BackendOpView)
    requires
        well_ordered(plan),
        ready(plan, op),
    ensures
        well_ordered(plan.push(op)),
        produced(op) is Some ==> produces(plan.push(op), produced(op)->0),
        op is CreateWorkspace ==> creates_workspace(plan.push(op)),
        creates_workspace(plan) ==> creates_workspace(plan.push(op)),
        forall|h: HandleView| #[trigger] produces(plan, h) ==> produces(plan.push(op), h),
{
    let longer = plan.push(op);
    assert(longer == plan + seq![op]);
    lemma_made_by_part(plan, seq![op]);
    assert(longer[plan.len() as int] == op);
    assert forall|i: int| 0 <= i < longer.len() implies ready(
        longer.take(i),
        #[trigger] longer[i],
    ) by {
        if i < plan.len() {
            assert(longer.take(i) == plan.take(i));
            assert(longer[i] == plan[i]);
        } else {
            assert(longer.take(i) == plan);
        }
    }
}

/// Operations that all have what they need can be added to a plan.
proof fn lemma_add_ops(plan: Seq<BackendOpView>, more: Seq<BackendOpView>)
    requires
        well_ordered(plan),
        forall|i: int| 0 <= i < more.len() ==> ready(plan, #[trigger] more[i]),
    ensures
        well_ordered(plan + more),
    decreases more.len(),
{
    if more.len() == 0 {
        assert(plan + more == plan);
    } else {
        let front = more.drop_last();
        assert forall|i: int| 0 <= i < front.len() implies ready(plan, #[trigger] front[i]) by {
            assert(front[i] == more[i]);
        }
        lemma_add_ops(plan, front);
        lemma_made_by_part(plan, front);
        assert(ready(plan, more[more.len() - 1]));
        lemma_add_op(plan + front, more.last());
        assert(plan + more == (plan + front).push(more.last()));
    }
}

/// The operations of pane `p` can be added once those of the panes before it
/// have been.
proof fn lemma_pane_in_order(plan: Seq<BackendOpView>, ws: config::WorkspaceView, t: int, p: int)
    requires
        0 <= t < ws.tabs.len(),
        0 <= p < ws.tabs[t].panes.len(),
        engine::sources_exist(ws.tabs[t].panes),
        well_ordered(plan),
        creates_workspace(plan),
        produces(plan, HandleView::TabRoot(t)),
        forall|k: int| 0 <= k < p ==> produces(plan, #[trigger] engine::handle_of(ws.tabs, t, k)),
    ensures
        well_ordered(plan + engine::pane_ops(ws, t, p)),
        forall|k: int|
            0 <= k <= p ==> produces(
                plan + engine::pane_ops(ws, t, p),
                #[trigger] engine::handle_of(ws.tabs, t, k),
            ),
        creates_workspace(plan + engine::pane_ops(ws, t, p)),
{
    let panes = ws.tabs[t].panes;
    let handle = engine::handle_of(ws.tabs, t, p);
    let split = plan + engine::pane_split(ws, t, p);
    if p == 0 {
        assert(split == plan);
    } else {
        let op = engine::pane_split(ws, t, p)[0];
        if panes[p].from is Some {
            engine::lemma_last_with_id(panes, p, panes[p].from->0);
        }
        assert(produces(plan, engine::handle_of(ws.tabs, t, engine::source_of(panes, p))));
        lemma_add_op(plan, op);
        assert(split == plan.push(op));
    }
    assert(produces(split, handle));
    let start = engine::pane_start(ws, t, p);
    assert forall|i: int| 0 <= i < start.len() implies ready(split, #[trigger] start[i]) by {
        assert(needed(start[i]) == Some(handle));
    }
    lemma_add_ops(split, start);
    assert(plan + engine::pane_ops(ws, t, p) == split + start);
    lemma_made_by_part(plan, engine::pane_ops(ws, t, p));
    lemma_made_by_part(split, start);
}

/// The operations of a tab's panes can be added once the tab is open.
proof fn lemma_panes_in_order(plan: Seq<BackendOpView>, ws: config::WorkspaceView, t: int, n: int)
    requires
        0 <= t < ws.tabs.len(),
        0 <= n <= ws.tabs[t].panes.len(),
        engine::sources_exist(ws.tabs[t].panes),
        well_ordered(plan),
        creates_workspace(plan),
        produces(plan, HandleView::TabRoot(t)),
    ensures
        well_ordered(plan + engine::panes_ops(ws, t, n)),
        creates_workspace(plan + engine::panes_ops(ws, t, n)),
        produces(plan + engine::panes_ops(ws, t, n), HandleView::TabRoot(t)),
        forall|k: int|
            0 <= k < n ==> produces(
                plan + engine::panes_ops(ws, t, n),
                #[trigger] engine::handle_of(ws.tabs, t, k),
            ),
    decreases n,
{
    if n == 0 {
        assert(plan + engine::panes_ops(ws, t, 0) == plan);
    } else {
        lemma_panes_in_order(plan, ws, t, n - 1);
        lemma_pane_in_order(plan + engine::panes_ops(ws, t, n - 1), ws, t, n - 1);
        assert(plan + engine::panes_ops(ws, t, n) == plan + engine::panes_ops(ws, t, n - 1)
            + engine::pane_ops(ws, t, n - 1));
        lemma_made_by_part(plan, engine::panes_ops(ws, t, n));
    }
}

/// A tab can be opened once the workspace is created.
proof fn lemma_tab_head_in_order(
    plan: Seq<BackendOpView>,
    ws: config::WorkspaceView,
    t: int,
)
    requires
        0 <= t < ws.tabs.len(),
        well_ordered(plan),
        creates_workspace(plan),
        produces(plan, HandleView::TabRoot(0)),
    ensures
        well_ordered(plan + engine::tab_head(ws, t)),
        creates_workspace(plan + engine::tab_head(ws, t)),
        produces(plan + engine::tab_head(ws, t), HandleView::TabRoot(t)),
{
    let head = engine::tab_head(ws, t);
    lemma_made_by_part(plan, head);
    if head.len() == 0 {
        assert(plan + head == plan);
    } else {
        lemma_add_op(plan, head[0]);
        assert(plan + head == plan.push(head[0]));
    }
}

/// The operations of the tabs can be added once the workspace is created.
proof fn lemma_tabs_in_order(
    plan: Seq<BackendOpView>,
    ws: config::WorkspaceView,
    n: int,
)
    requires
        0 <= n <= ws.tabs.len(),
        engine::plannable(ws),
        well_ordered(plan),
        creates_workspace(plan),
        produces(plan, HandleView::TabRoot(0)),
    ensures
        well_ordered(plan + engine::tabs_ops(ws, n)),
        creates_workspace(plan + engine::tabs_ops(ws, n)),
        produces(plan + engine::tabs_ops(ws, n), HandleView::TabRoot(0)),
    decreases n,
{
    if n == 0 {
        assert(plan + engine::tabs_ops(ws, 0) == plan);
    } else {
        let t = n - 1;
        let panes = ws.tabs[t].panes.len() as int;
        let before_tab = plan + engine::tabs_ops(ws, t);
        let opened = before_tab + engine::tab_head(ws, t);
        lemma_tabs_in_order(plan, ws, t);
        lemma_tab_head_in_order(before_tab, ws, t);
        assert(engine::sources_exist(ws.tabs[t].panes));
        lemma_panes_in_order(opened, ws, t, panes);
        assert(plan + engine::tabs_ops(ws, n) == opened + engine::panes_ops(ws, t, panes));
        lemma_made_by_part(plan, engine::tabs_ops(ws, n));
    }
}

/// The plan of a workspace can be added to any plan.
proof fn lemma_workspace_in_order(plan: Seq<BackendOpView>, ws: config::WorkspaceView)
    requires
        engine::plannable(ws),
        well_ordered(plan),
    ensures
        well_ordered(plan + engine::workspace_plan(ws)),
{
    lemma_add_op(plan, engine::workspace_op(ws));
    let created = plan.push(engine::workspace_op(ws));
    lemma_tabs_in_order(created, ws, ws.tabs.len() as int);
    assert(plan + engine::workspace_plan(ws) == created + engine::tabs_ops(
        ws,
        ws.tabs.len() as int,
    ));
}

/// The plans of the first `n` workspaces are well ordered.
proof fn lemma_workspaces_in_order(file: Seq<config::WorkspaceView>, n: int)
    requires
        0 <= n <= file.len(),
        engine::plannable_file(file),
    ensures
        well_ordered(engine::workspaces_plan(file, n)),
    decreases n,
{
    if n > 0 {
        lemma_workspaces_in_order(file, n - 1);
        lemma_workspace_in_order(engine::workspaces_plan(file, n - 1), file[n - 1]);
    }
}

/// The plan of a layout never uses a workspace, a tab or a pane before it is
/// made, so it can always be carried out.
pub proof fn law_plans_are_well_ordered(file: Seq<config::WorkspaceView>)
    requires
        engine::plannable_file(file),
    ensures
        well_ordered(engine::file_plan(file)),
{
    lemma_workspaces_in_order(file, file.len() as int);
}

/// Builds the workspaces of `file`, with their tabs and panes.
///
/// Each workspace, tab and pane is created with the focus that the layout asks
/// for, so the intended pane receives focus as it is made. No separate request
/// for focus follows.
///
/// # Errors
///
/// Returns [`EngineError::Backend`] if any backend operation fails.
pub fn apply<B: HerdrBackend>(file: &SpreadFile, backend: &mut B) -> (r: Result<(), EngineError>)
    requires
        engine::plannable_file(file.deep_view()),
    ensures
        final(backend).exchanges().len() >= old(backend).exchanges().len(),
        final(backend).exchanges().take(old(backend).exchanges().len() as int) == old(
            backend,
        ).exchanges(),
        follows_plan(
            engine::file_plan(file.deep_view()),
            final(backend).exchanges().skip(old(backend).exchanges().len() as int),
        ),
        outcome_of(
            engine::file_plan(file.deep_view()),
            final(backend).exchanges().skip(old(backend).exchanges().len() as int),
            r,
        ),
{
    proof {
        law_plans_are_well_ordered(file.deep_view());
    }
    execute_plan(&plan_file(file), backend)
}

} // verus!
