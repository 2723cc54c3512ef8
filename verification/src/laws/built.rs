//! What a plan builds.
//!
//! The operations of a plan are read here as whoever carries them out reads
//! them: each one adds something to what has been built so far. What stands at
//! the end is held against the layout, piece by piece.

use vstd::prelude::*;

use crate::backend;
use crate::config;
use crate::engine;
use crate::engine::{BackendOpView, HandleView};
use crate::path;
use crate::shell;
use crate::text;

verus! {

/// A pane that was made: by a split off another pane of its tab, or together
/// with its tab.
#[verifier::ext_equal]
pub struct BuiltPane {
    /// The pane it was split off, by its place in the tab, and how.
    pub split: Option<(int, backend::SplitOptsView)>,
    /// What was typed into it.
    pub typed: Seq<Seq<char>>,
    /// What was waited for in its output.
    pub awaited: Seq<config::WaitForView>,
}

/// A tab that was made: by itself, or together with its workspace.
#[verifier::ext_equal]
pub struct BuiltTab {
    pub label: Option<Seq<char>>,
    /// How it was made, if it was made by itself.
    pub opts: Option<backend::TabOptsView>,
    pub panes: Seq<BuiltPane>,
}

/// A workspace that was made.
#[verifier::ext_equal]
pub struct BuiltWorkspace {
    pub opts: backend::WorkspaceOptsView,
    pub tabs: Seq<BuiltTab>,
}

/// A pane, by the places of its workspace, of its tab and its own.
pub struct Place {
    pub w: int,
    pub t: int,
    pub p: int,
}

/// What can happen to a pane.
pub enum Stage {
    Made,
    Typed,
    Awaited,
}

/// Something that happened to a pane.
pub struct Moment {
    pub place: Place,
    pub stage: Stage,
}

/// Everything that was built, the panes that handles stand for, and what
/// happened in which order.
#[verifier::ext_equal]
pub struct Session {
    pub workspaces: Seq<BuiltWorkspace>,
    pub panes: Map<HandleView, Place>,
    pub moments: Seq<Moment>,
}

/// Nothing was built.
pub open spec fn nothing_built() -> Session {
    Session { workspaces: Seq::empty(), panes: Map::empty(), moments: Seq::empty() }
}

/// A pane that was made together with its tab, and left alone since.
pub open spec fn fresh_pane() -> BuiltPane {
    BuiltPane { split: None, typed: Seq::empty(), awaited: Seq::empty() }
}

/// The pane at a place.
pub open spec fn pane_at(session: Session, place: Place) -> BuiltPane {
    session.workspaces[place.w].tabs[place.t].panes[place.p]
}

/// The session with another tab in place of one.
pub open spec fn with_tab(session: Session, w: int, t: int, tab: BuiltTab) -> Session {
    let workspace = session.workspaces[w];
    Session {
        workspaces: session.workspaces.update(
            w,
            BuiltWorkspace { tabs: workspace.tabs.update(t, tab), ..workspace },
        ),
        ..session
    }
}

/// The session with another pane in place of one.
pub open spec fn with_pane(session: Session, place: Place, pane: BuiltPane) -> Session {
    let tab = session.workspaces[place.w].tabs[place.t];
    with_tab(
        session,
        place.w,
        place.t,
        BuiltTab { panes: tab.panes.update(place.p, pane), ..tab },
    )
}

/// The session once something has happened to a pane.
pub open spec fn noted(session: Session, place: Place, stage: Stage) -> Session {
    Session { moments: session.moments.push(Moment { place, stage }), ..session }
}

/// The session once a handle stands for the pane at a place, which has just
/// been made.
pub open spec fn named_pane(session: Session, handle: HandleView, place: Place) -> Session {
    noted(
        Session { panes: session.panes.insert(handle, place), ..session },
        place,
        Stage::Made,
    )
}

/// What one more operation builds.
pub open spec fn built_on(session: Session, op: BackendOpView) -> Session {
    let w = session.workspaces.len() - 1;
    match op {
        BackendOpView::CreateWorkspace(opts) => {
            let tab = BuiltTab { label: None, opts: None, panes: seq![fresh_pane()] };
            named_pane(
                Session {
                    workspaces: session.workspaces.push(BuiltWorkspace { opts, tabs: seq![tab] }),
                    ..session
                },
                HandleView::TabRoot(0),
                Place { w: w + 1, t: 0, p: 0 },
            )
        },
        BackendOpView::RenameFirstTab { label } => with_tab(
            session,
            w,
            0,
            BuiltTab { label: Some(label), ..session.workspaces[w].tabs[0] },
        ),
        BackendOpView::CreateTab { index, opts } => {
            let workspace = session.workspaces[w];
            let tab = BuiltTab { label: opts.label, opts: Some(opts), panes: seq![fresh_pane()] };
            named_pane(
                Session {
                    workspaces: session.workspaces.update(
                        w,
                        BuiltWorkspace { tabs: workspace.tabs.push(tab), ..workspace },
                    ),
                    ..session
                },
                HandleView::TabRoot(index),
                Place { w, t: workspace.tabs.len() as int, p: 0 },
            )
        },
        BackendOpView::SplitPane { from, into, opts } => {
            let source = session.panes[from];
            let tab = session.workspaces[source.w].tabs[source.t];
            let pane = BuiltPane { split: Some((source.p, opts)), ..fresh_pane() };
            named_pane(
                with_tab(
                    session,
                    source.w,
                    source.t,
                    BuiltTab { panes: tab.panes.push(pane), ..tab },
                ),
                into,
                Place { p: tab.panes.len() as int, ..source },
            )
        },
        BackendOpView::Run { pane, command } => {
            let place = session.panes[pane];
            let target = pane_at(session, place);
            noted(
                with_pane(
                    session,
                    place,
                    BuiltPane { typed: target.typed.push(command), ..target },
                ),
                place,
                Stage::Typed,
            )
        },
        BackendOpView::WaitOutput { pane, wait } => {
            let place = session.panes[pane];
            let target = pane_at(session, place);
            noted(
                with_pane(
                    session,
                    place,
                    BuiltPane { awaited: target.awaited.push(wait), ..target },
                ),
                place,
                Stage::Awaited,
            )
        },
    }
}

/// What the operations build, one after the other.
pub open spec fn built_by(session: Session, ops: Seq<BackendOpView>) -> Session
    decreases ops.len(),
{
    if ops.len() == 0 {
        session
    } else {
        built_on(built_by(session, ops.drop_last()), ops.last())
    }
}

/// A directory, by the names that lead to it, from the root or from wherever
/// one is.
pub struct Directory {
    pub absolute: bool,
    pub names: Seq<Seq<char>>,
}

/// The directory that a path leads to.
pub open spec fn directory(path: Seq<char>) -> Directory {
    Directory { absolute: path::absolute(path), names: path::named(path::segments(path)) }
}

/// The directory that a path leads to from another one: on from there, unless
/// the path is absolute.
pub open spec fn below(upper: Option<Directory>, path: Option<Seq<char>>) -> Option<Directory> {
    match (upper, path) {
        (_, None) => upper,
        (None, Some(path)) => Some(directory(path)),
        (Some(upper), Some(path)) => if path::absolute(path) {
            Some(directory(path))
        } else {
            Some(
                Directory {
                    absolute: upper.absolute,
                    names: upper.names + directory(path).names,
                },
            )
        },
    }
}

/// The directory of tab `t`: root, then the tab's.
pub open spec fn tab_directory(ws: config::WorkspaceView, t: int) -> Option<Directory> {
    below(below(None, ws.root), ws.tabs[t].cwd)
}

/// The directory of pane `p` of tab `t`: root, then the tab's, then the pane's.
pub open spec fn pane_directory(ws: config::WorkspaceView, t: int, p: int) -> Option<Directory> {
    below(tab_directory(ws, t), ws.tabs[t].panes[p].cwd)
}

/// A path is the plain text of a directory: its names with one separator
/// between neighbours, and one in front of an absolute one.
pub open spec fn writes(path: Option<Seq<char>>, dir: Option<Directory>) -> bool {
    match (path, dir) {
        (Some(path), Some(dir)) => {
            let names = text::joined_text(dir.names, seq!['/']);
            &&& path == if dir.absolute {
                seq!['/'] + names
            } else {
                names
            }
            &&& directory(path) == dir
        },
        (None, None) => true,
        _ => false,
    }
}

/// Pane `q` is the one that pane `p` is to be split off: the last one in front
/// of it that declares the id it names, or the one in front of it.
pub open spec fn split_source(panes: Seq<config::PaneView>, p: int, q: int) -> bool {
    match panes[p].from {
        Some(id) => {
            &&& 0 <= q < p
            &&& panes[q].id == Some(id)
            &&& forall|k: int| q < k < p ==> (#[trigger] panes[k]).id != Some(id)
        },
        None => q == p - 1,
    }
}

/// A text is a shell word that stands for a value.
pub open spec fn is_word_for(word: Seq<char>, value: Seq<char>) -> bool {
    shell::read_word(word, false) == Some(value)
}

/// A text starts with another, and what is left is a shell word for a value.
pub open spec fn ends_in_word(part: Seq<char>, head: Seq<char>, value: Seq<char>) -> bool {
    &&& head.is_prefix_of(part)
    &&& is_word_for(part.skip(head.len() as int), value)
}

/// The first pane of tab `t` does not start in its directory: only a tab that
/// was made by itself starts in the tab's directory, and none in the pane's.
pub open spec fn starts_elsewhere(ws: config::WorkspaceView, t: int) -> bool {
    ws.tabs[t].panes[0].cwd is Some || (t == 0 && ws.tabs[t].cwd is Some)
}

/// The parts of the line that is typed into the first pane of tab `t`: it
/// enters the pane's directory, sets the pane's variables in order, and starts
/// the command, as far as there is anything to do.
pub open spec fn first_pane_parts(
    ws: config::WorkspaceView,
    t: int,
    parts: Seq<Seq<char>>,
) -> bool {
    let pane = ws.tabs[t].panes[0];
    let enters: int = if starts_elsewhere(ws, t) {
        1
    } else {
        0
    };
    let starts: int = if pane.command is Some {
        1
    } else {
        0
    };
    &&& parts.len() == enters + pane.env.len() + starts
    &&& enters == 1 ==> exists|dir: Seq<char>| #[trigger]
        ends_in_word(parts[0], "cd "@, dir) && writes(Some(dir), pane_directory(ws, t, 0))
    &&& forall|k: int|
        0 <= k < pane.env.len() ==> ends_in_word(
            parts[enters + k],
            "export "@ + (#[trigger] pane.env[k]).0 + "="@,
            pane.env[k].1,
        )
    &&& pane.command matches Some(command) ==> parts.last() == command
}

/// What was typed into the first pane of tab `t`: one line, if there is
/// anything to do.
pub open spec fn typed_into_first(
    ws: config::WorkspaceView,
    t: int,
    typed: Seq<Seq<char>>,
) -> bool {
    exists|parts: Seq<Seq<char>>| #[trigger]
        first_pane_parts(ws, t, parts) && typed == if parts.len() == 0 {
            Seq::<Seq<char>>::empty()
        } else {
            seq![text::joined_text(parts, " && "@)]
        }
}

/// A pane was built as pane `p` of tab `t` of the layout says.
pub open spec fn pane_as_laid_out(
    built: BuiltPane,
    ws: config::WorkspaceView,
    t: int,
    p: int,
) -> bool {
    let pane = ws.tabs[t].panes[p];
    &&& if p == 0 {
        &&& built.split is None
        &&& typed_into_first(ws, t, built.typed)
    } else {
        &&& built.split matches Some((source, opts))
        &&& split_source(ws.tabs[t].panes, p, source)
        &&& opts.direction == pane.split
        &&& opts.ratio == pane.ratio
        &&& writes(opts.cwd, pane_directory(ws, t, p))
        &&& opts.env == pane.env
        &&& opts.focus == pane.focus
        &&& built.typed == match pane.command {
            Some(command) => seq![command],
            None => Seq::empty(),
        }
    }
    &&& built.awaited == match (pane.command, pane.wait_for) {
        (Some(_), Some(wait)) => seq![wait],
        _ => Seq::empty(),
    }
}

/// The first pane of tab `t` asks for focus.
pub open spec fn first_asks_for_focus(ws: config::WorkspaceView, t: int) -> bool {
    0 <= t < ws.tabs.len() && ws.tabs[t].panes.len() > 0 && ws.tabs[t].panes[0].focus
}

/// Tab `t` was opened as the layout says: the first together with the
/// workspace, every other one by itself.
pub open spec fn tab_as_laid_out(built: BuiltTab, ws: config::WorkspaceView, t: int) -> bool {
    let tab = ws.tabs[t];
    &&& built.label == tab.label
    &&& (built.opts is None) == (t == 0)
    &&& built.opts matches Some(opts) ==> {
        &&& opts.label == tab.label
        &&& writes(opts.cwd, tab_directory(ws, t))
        &&& opts.focus == first_asks_for_focus(ws, t)
    }
}

/// The first `n` panes of tab `t` were built as the layout says, and no others.
pub open spec fn panes_as_laid_out(
    built: Seq<BuiltPane>,
    ws: config::WorkspaceView,
    t: int,
    n: int,
) -> bool {
    &&& built.len() == if n == 0 {
        1
    } else {
        n
    }
    &&& n == 0 ==> built[0] == fresh_pane()
    &&& forall|p: int| 0 <= p < n ==> pane_as_laid_out(#[trigger] built[p], ws, t, p)
}

/// A workspace was created as the layout says.
pub open spec fn opts_as_laid_out(
    opts: backend::WorkspaceOptsView,
    ws: config::WorkspaceView,
) -> bool {
    &&& opts.label == ws.name
    &&& opts.cwd == ws.root
    &&& opts.env == ws.env
    &&& opts.focus == (ws.focus || first_asks_for_focus(ws, 0))
}

/// A workspace was built as the layout says: it has its tabs, and they have
/// their panes.
pub open spec fn workspace_as_laid_out(
    built: BuiltWorkspace,
    ws: config::WorkspaceView,
) -> bool {
    &&& opts_as_laid_out(built.opts, ws)
    &&& if ws.tabs.len() == 0 {
        &&& built.tabs.len() == 1
        &&& built.tabs[0].label is None
        &&& built.tabs[0].panes == seq![fresh_pane()]
    } else {
        built.tabs.len() == ws.tabs.len()
    }
    &&& forall|t: int|
        0 <= t < ws.tabs.len() ==> {
            &&& tab_as_laid_out(#[trigger] built.tabs[t], ws, t)
            &&& panes_as_laid_out(built.tabs[t].panes, ws, t, ws.tabs[t].panes.len() as int)
        }
}

/// Where a stage stands among those of its pane.
pub open spec fn rank(stage: Stage) -> int {
    match stage {
        Stage::Made => 0,
        Stage::Typed => 1,
        Stage::Awaited => 2,
    }
}

/// One moment is in front of another in the layout: in an earlier workspace,
/// tab or pane, or earlier with the same pane.
pub open spec fn in_front(a: Moment, b: Moment) -> bool {
    ||| a.place.w < b.place.w
    ||| a.place.w == b.place.w && a.place.t < b.place.t
    ||| a.place.w == b.place.w && a.place.t == b.place.t && a.place.p < b.place.p
    ||| a.place == b.place && rank(a.stage) < rank(b.stage)
}

/// Everything happened in the order of the layout: a pane is made, then typed
/// into, then waited for, and only then comes the next one.
pub open spec fn in_order(moments: Seq<Moment>) -> bool {
    forall|i: int, j: int|
        0 <= i < j < moments.len() ==> in_front(#[trigger] moments[i], #[trigger] moments[j])
}

proof fn lemma_built_in_turn(session: Session, a: Seq<BackendOpView>, b: Seq<BackendOpView>)
    ensures
        built_by(session, a + b) == built_by(built_by(session, a), b),
    decreases b.len(),
{
    if b.len() == 0 {
        assert(a + b =~= a);
    } else {
        lemma_built_in_turn(session, a, b.drop_last());
        assert((a + b).drop_last() =~= a + b.drop_last());
    }
}

proof fn lemma_built_by_one(session: Session, op: BackendOpView)
    ensures
        built_by(session, seq![op]) == built_on(session, op),
{
    assert(seq![op].drop_last() =~= Seq::<BackendOpView>::empty());
    assert(built_by(session, Seq::empty()) == session);
}

/// A directory seen from another is what its path leads to from there.
proof fn lemma_combined_directory(
    base: Option<Seq<char>>,
    upper: Option<Directory>,
    overlay: Option<Seq<char>>,
)
    requires
        match (base, upper) {
            (Some(base), Some(upper)) => directory(base) == upper,
            (None, None) => true,
            _ => false,
        },
    ensures
        writes(engine::combined_cwd(base, overlay), below(upper, overlay)),
{
    if overlay is Some {
        path::law_normalizing_keeps_root_and_names(overlay->0);
        assert(Seq::<char>::empty() + text::joined_text(directory(overlay->0).names, seq!['/'])
            =~= text::joined_text(directory(overlay->0).names, seq!['/']));
    }
    if base is Some {
        path::law_normalizing_keeps_root_and_names(base->0);
        let plain = text::joined_text(directory(base->0).names, seq!['/']);
        assert(Seq::<char>::empty() + plain =~= plain);
        if overlay is Some {
            let joined = path::joined_path(base->0, overlay->0);
            path::law_normalizing_keeps_root_and_names(joined);
            if !path::absolute(overlay->0) {
                path::law_joining_leads_on(base->0, overlay->0);
            }
            let plain = text::joined_text(directory(joined).names, seq!['/']);
            assert(Seq::<char>::empty() + plain =~= plain);
        }
    }
}

proof fn lemma_tab_directory(ws: config::WorkspaceView, t: int)
    ensures
        writes(engine::resolved_cwd(ws.root, ws.tabs[t].cwd, None), tab_directory(ws, t)),
{
    let root = below(None, ws.root);
    lemma_combined_directory(ws.root, root, ws.tabs[t].cwd);
    lemma_combined_directory(
        engine::combined_cwd(ws.root, ws.tabs[t].cwd),
        tab_directory(ws, t),
        None,
    );
}

proof fn lemma_pane_directory(ws: config::WorkspaceView, t: int, p: int)
    ensures
        writes(
            engine::resolved_cwd(ws.root, ws.tabs[t].cwd, ws.tabs[t].panes[p].cwd),
            pane_directory(ws, t, p),
        ),
{
    let root = below(None, ws.root);
    lemma_combined_directory(ws.root, root, ws.tabs[t].cwd);
    lemma_combined_directory(
        engine::combined_cwd(ws.root, ws.tabs[t].cwd),
        tab_directory(ws, t),
        ws.tabs[t].panes[p].cwd,
    );
}

/// The parts of the line that is typed into the first pane of tab `t`.
spec fn planned_parts(ws: config::WorkspaceView, t: int) -> Seq<Seq<char>> {
    let pane = ws.tabs[t].panes[0];
    let head = engine::prefix_parts(engine::entered_cwd(ws, t), pane.env);
    match pane.command {
        Some(command) => head.push(command),
        None => head,
    }
}

proof fn lemma_planned_parts(ws: config::WorkspaceView, t: int)
    requires
        0 <= t < ws.tabs.len(),
        ws.tabs[t].panes.len() > 0,
    ensures
        first_pane_parts(ws, t, planned_parts(ws, t)),
        match engine::pane_line(ws, t, 0) {
            Some(line) => planned_parts(ws, t).len() > 0 && line == text::joined_text(
                planned_parts(ws, t),
                " && "@,
            ),
            None => planned_parts(ws, t).len() == 0,
        },
{
    let pane = ws.tabs[t].panes[0];
    let parts = planned_parts(ws, t);
    let cwd = engine::entered_cwd(ws, t);
    let head = engine::prefix_parts(cwd, pane.env);
    lemma_pane_directory(ws, t, 0);
    assert(cwd is Some == starts_elsewhere(ws, t));
    let enters: int = if starts_elsewhere(ws, t) {
        1
    } else {
        0
    };
    if cwd is Some {
        let dir = cwd->0;
        let quoted = shell::quoted_text(dir);
        assert(head[0] == "cd "@ + quoted);
        assert(parts[0] == head[0]);
        assert(("cd "@ + quoted).skip("cd "@.len() as int) =~= quoted);
        shell::law_shell_reads_back_what_was_quoted(dir);
        assert(ends_in_word(parts[0], "cd "@, dir));
    }
    assert forall|k: int| 0 <= k < pane.env.len() implies ends_in_word(
        parts[enters + k],
        "export "@ + (#[trigger] pane.env[k]).0 + "="@,
        pane.env[k].1,
    ) by {
        let quoted = shell::quoted_text(pane.env[k].1);
        let set = "export "@ + pane.env[k].0 + "="@;
        assert(parts[enters + k] == head[enters + k]);
        assert(head[enters + k] == engine::export_text(pane.env[k]));
        assert(engine::export_text(pane.env[k]) =~= set + quoted);
        assert((set + quoted).skip(set.len() as int) =~= quoted);
        shell::law_shell_reads_back_what_was_quoted(pane.env[k].1);
    }
    if pane.command is Some {
        assert(parts.drop_last() =~= head);
    }
}

/// Tab `t` of the workspace behind `earlier` is open, and all before it stand.
spec fn tab_open(
    session: Session,
    earlier: Seq<BuiltWorkspace>,
    ws: config::WorkspaceView,
    t: int,
) -> bool {
    let w = earlier.len() as int;
    let built = session.workspaces[w];
    &&& 0 <= t
    &&& session.workspaces.len() == w + 1
    &&& session.workspaces.take(w) == earlier
    &&& opts_as_laid_out(built.opts, ws)
    &&& built.tabs.len() == t + 1
    &&& forall|k: int|
        0 <= k < t ==> {
            &&& tab_as_laid_out(#[trigger] built.tabs[k], ws, k)
            &&& panes_as_laid_out(built.tabs[k].panes, ws, k, ws.tabs[k].panes.len() as int)
        }
    &&& tab_as_laid_out(built.tabs[t], ws, t)
}

/// The first `n` panes of tab `t` can be found by their handles.
spec fn handles_known(
    session: Session,
    w: int,
    ws: config::WorkspaceView,
    t: int,
    n: int,
) -> bool {
    forall|p: int|
        0 <= p < n ==> session.panes[#[trigger] engine::handle_of(ws.tabs, t, p)] == (Place {
            w,
            t,
            p,
        })
}

/// Everything happened in order, and in front of `bound`.
spec fn in_order_up_to(moments: Seq<Moment>, bound: Moment) -> bool {
    &&& in_order(moments)
    &&& forall|i: int| 0 <= i < moments.len() ==> in_front(#[trigger] moments[i], bound)
}

/// What has been built once the first `n` panes of tab `t` stand.
spec fn under_way(
    session: Session,
    earlier: Seq<BuiltWorkspace>,
    ws: config::WorkspaceView,
    t: int,
    n: int,
) -> bool {
    let w = earlier.len() as int;
    let panes = session.workspaces[w].tabs[t].panes;
    &&& tab_open(session, earlier, ws, t)
    &&& panes_as_laid_out(panes, ws, t, n)
    &&& handles_known(session, w, ws, t, panes.len() as int)
    &&& in_order_up_to(session.moments, next_moment(w, t, n))
}

/// What has been built once pane `p` of tab `t` is made and is what `pane`
/// says.
spec fn pane_under_way(
    session: Session,
    earlier: Seq<BuiltWorkspace>,
    ws: config::WorkspaceView,
    t: int,
    p: int,
    pane: BuiltPane,
    bound: Moment,
) -> bool {
    let w = earlier.len() as int;
    let panes = session.workspaces[w].tabs[t].panes;
    &&& tab_open(session, earlier, ws, t)
    &&& 0 <= p
    &&& panes.len() == p + 1
    &&& panes[p] == pane
    &&& forall|k: int| 0 <= k < p ==> pane_as_laid_out(#[trigger] panes[k], ws, t, k)
    &&& handles_known(session, w, ws, t, p + 1)
    &&& in_order_up_to(session.moments, bound)
}

/// The first thing that can happen once `n` panes of a tab stand.
spec fn next_moment(w: int, t: int, n: int) -> Moment {
    if n == 0 {
        Moment { place: Place { w, t, p: 0 }, stage: Stage::Typed }
    } else {
        Moment { place: Place { w, t, p: n }, stage: Stage::Made }
    }
}

/// A moment that lies behind all others goes to the end.
proof fn lemma_later(moments: Seq<Moment>, next: Moment, bound: Moment)
    requires
        in_order_up_to(moments, next),
        in_front(next, bound),
    ensures
        in_order_up_to(moments.push(next), bound),
{
    let all = moments.push(next);
    assert forall|i: int, j: int| 0 <= i < j < all.len() implies in_front(
        #[trigger] all[i],
        #[trigger] all[j],
    ) by {
        if j < moments.len() {
            assert(in_front(moments[i], moments[j]));
        } else {
            assert(in_front(moments[i], next));
        }
    }
    assert forall|i: int| 0 <= i < all.len() implies in_front(#[trigger] all[i], bound) by {
        if i < moments.len() {
            assert(in_front(moments[i], next));
        }
    }
}

/// What lies in front of a moment lies in front of all behind it.
proof fn lemma_bound_moves(moments: Seq<Moment>, bound: Moment, later: Moment)
    requires
        in_order_up_to(moments, bound),
        in_front(bound, later),
    ensures
        in_order_up_to(moments, later),
{
    assert forall|i: int| 0 <= i < moments.len() implies in_front(
        #[trigger] moments[i],
        later,
    ) by {
        assert(in_front(moments[i], bound));
    }
}

spec fn moment(w: int, t: int, p: int, stage: Stage) -> Moment {
    Moment { place: Place { w, t, p }, stage }
}

/// A change to the last tab of the last workspace leaves everything else.
proof fn lemma_tab_stays_open(
    session: Session,
    earlier: Seq<BuiltWorkspace>,
    ws: config::WorkspaceView,
    t: int,
    panes: Seq<BuiltPane>,
)
    requires
        tab_open(session, earlier, ws, t),
    ensures
        ({
            let w = earlier.len() as int;
            let tab = session.workspaces[w].tabs[t];
            let after = with_tab(session, w, t, BuiltTab { panes, ..tab });
            &&& tab_open(after, earlier, ws, t)
            &&& after.workspaces[w].tabs[t].panes == panes
            &&& after.panes == session.panes
            &&& after.moments == session.moments
        }),
{
    let w = earlier.len() as int;
    let tab = session.workspaces[w].tabs[t];
    let after = with_tab(session, w, t, BuiltTab { panes, ..tab });
    assert(after.workspaces.take(w) =~= session.workspaces.take(w));
    assert forall|k: int| 0 <= k < t implies {
        &&& tab_as_laid_out(#[trigger] after.workspaces[w].tabs[k], ws, k)
        &&& panes_as_laid_out(
            after.workspaces[w].tabs[k].panes,
            ws,
            k,
            ws.tabs[k].panes.len() as int,
        )
    } by {
        assert(after.workspaces[w].tabs[k] == session.workspaces[w].tabs[k]);
    }
}

/// Splitting makes the next pane.
proof fn lemma_split(
    session: Session,
    earlier: Seq<BuiltWorkspace>,
    ws: config::WorkspaceView,
    t: int,
    p: int,
    source: int,
    opts: backend::SplitOptsView,
)
    requires
        under_way(session, earlier, ws, t, p),
        0 <= source < p,
    ensures
        pane_under_way(
            built_on(
                session,
                BackendOpView::SplitPane {
                    from: engine::handle_of(ws.tabs, t, source),
                    into: engine::handle_of(ws.tabs, t, p),
                    opts,
                },
            ),
            earlier,
            ws,
            t,
            p,
            BuiltPane { split: Some((source, opts)), ..fresh_pane() },
            moment(earlier.len() as int, t, p, Stage::Typed),
        ),
{
    let w = earlier.len() as int;
    let from = engine::handle_of(ws.tabs, t, source);
    let into = engine::handle_of(ws.tabs, t, p);
    let op = BackendOpView::SplitPane { from, into, opts };
    let tab = session.workspaces[w].tabs[t];
    let pane = BuiltPane { split: Some((source, opts)), ..fresh_pane() };
    let panes = tab.panes.push(pane);
    assert(session.panes[from] == Place { w, t, p: source });
    lemma_tab_stays_open(session, earlier, ws, t, panes);
    let after = built_on(session, op);
    assert forall|k: int| 0 <= k < p + 1 implies after.panes[#[trigger] engine::handle_of(
        ws.tabs,
        t,
        k,
    )] == (Place { w, t, p: k }) by {
        if k < p {
            assert(engine::handle_of(ws.tabs, t, k) != into);
            assert(session.panes[engine::handle_of(ws.tabs, t, k)] == Place { w, t, p: k });
        }
    }
    lemma_later(
        session.moments,
        moment(w, t, p, Stage::Made),
        moment(w, t, p, Stage::Typed),
    );
    assert(tab_open(after, earlier, ws, t));
    assert forall|k: int| 0 <= k < p implies pane_as_laid_out(
        #[trigger] after.workspaces[w].tabs[t].panes[k],
        ws,
        t,
        k,
    ) by {
        assert(panes[k] == tab.panes[k]);
    }
}

/// Typing into the pane at hand, or waiting for it, changes that pane alone.
proof fn lemma_pane_changes(
    session: Session,
    earlier: Seq<BuiltWorkspace>,
    ws: config::WorkspaceView,
    t: int,
    p: int,
    pane: BuiltPane,
    stage: Stage,
    changed: BuiltPane,
    bound: Moment,
)
    requires
        pane_under_way(
            session,
            earlier,
            ws,
            t,
            p,
            pane,
            moment(earlier.len() as int, t, p, stage),
        ),
        in_front(moment(earlier.len() as int, t, p, stage), bound),
    ensures
        ({
            let place = Place { w: earlier.len() as int, t, p };
            pane_under_way(
                noted(with_pane(session, place, changed), place, stage),
                earlier,
                ws,
                t,
                p,
                changed,
                bound,
            )
        }),
{
    let w = earlier.len() as int;
    let place = Place { w, t, p };
    let tab = session.workspaces[w].tabs[t];
    let panes = tab.panes.update(p, changed);
    lemma_tab_stays_open(session, earlier, ws, t, panes);
    let after = noted(with_pane(session, place, changed), place, stage);
    lemma_later(session.moments, moment(w, t, p, stage), bound);
    assert(tab_open(after, earlier, ws, t));
    assert forall|k: int| 0 <= k < p implies pane_as_laid_out(
        #[trigger] after.workspaces[w].tabs[t].panes[k],
        ws,
        t,
        k,
    ) by {
        assert(panes[k] == tab.panes[k]);
    }
    assert forall|k: int| 0 <= k < p + 1 implies after.panes[#[trigger] engine::handle_of(
        ws.tabs,
        t,
        k,
    )] == (Place { w, t, p: k }) by {
        assert(session.panes[engine::handle_of(ws.tabs, t, k)] == Place { w, t, p: k });
    }
}

/// Starting what runs in the pane at hand finishes it.
proof fn lemma_start(
    session: Session,
    earlier: Seq<BuiltWorkspace>,
    ws: config::WorkspaceView,
    t: int,
    p: int,
    pane: BuiltPane,
)
    requires
        0 <= t < ws.tabs.len(),
        0 <= p < ws.tabs[t].panes.len(),
        pane_under_way(
            session,
            earlier,
            ws,
            t,
            p,
            pane,
            moment(earlier.len() as int, t, p, Stage::Typed),
        ),
        pane.typed.len() == 0,
        pane.awaited.len() == 0,
    ensures
        ({
            let after = built_by(session, engine::pane_start(ws, t, p));
            let typed = match engine::pane_line(ws, t, p) {
                Some(line) => seq![line],
                None => Seq::empty(),
            };
            let awaited = match (ws.tabs[t].panes[p].command, ws.tabs[t].panes[p].wait_for) {
                (Some(_), Some(wait)) => seq![wait],
                _ => Seq::empty(),
            };
            pane_under_way(
                after,
                earlier,
                ws,
                t,
                p,
                BuiltPane { typed, awaited, ..pane },
                moment(earlier.len() as int, t, p + 1, Stage::Made),
            )
        }),
{
    let w = earlier.len() as int;
    let handle = engine::handle_of(ws.tabs, t, p);
    let laid_out = ws.tabs[t].panes[p];
    let awaits = moment(w, t, p, Stage::Awaited);
    let bound = moment(w, t, p + 1, Stage::Made);
    assert(session.panes[handle] == Place { w, t, p });
    let run: Seq<BackendOpView> = match engine::pane_line(ws, t, p) {
        Some(command) => seq![BackendOpView::Run { pane: handle, command }],
        None => Seq::empty(),
    };
    let wait: Seq<BackendOpView> = match (laid_out.command, laid_out.wait_for) {
        (Some(_), Some(wait)) => seq![BackendOpView::WaitOutput { pane: handle, wait }],
        _ => Seq::empty(),
    };
    let middle = built_by(session, run);
    let typed: Seq<Seq<char>> = match engine::pane_line(ws, t, p) {
        Some(line) => seq![line],
        None => Seq::empty(),
    };
    let typed_pane = BuiltPane { typed, ..pane };
    if engine::pane_line(ws, t, p) is Some {
        lemma_built_by_one(session, run[0]);
        assert(run =~= seq![run[0]]);
        assert(pane.typed.push(typed[0]) =~= typed);
        lemma_pane_changes(session, earlier, ws, t, p, pane, Stage::Typed, typed_pane, awaits);
    } else {
        lemma_bound_moves(session.moments, moment(w, t, p, Stage::Typed), awaits);
        assert(pane.typed =~= typed);
    }
    assert(pane_under_way(middle, earlier, ws, t, p, typed_pane, awaits));
    lemma_built_in_turn(session, run, wait);
    assert(middle.panes[handle] == Place { w, t, p });
    let awaited: Seq<config::WaitForView> = match (laid_out.command, laid_out.wait_for) {
        (Some(_), Some(wait)) => seq![wait],
        _ => Seq::empty(),
    };
    let done = BuiltPane { typed, awaited, ..pane };
    if wait.len() > 0 {
        lemma_built_by_one(middle, wait[0]);
        assert(wait =~= seq![wait[0]]);
        assert(pane.awaited.push(awaited[0]) =~= awaited);
        lemma_pane_changes(middle, earlier, ws, t, p, typed_pane, Stage::Awaited, done, bound);
    } else {
        lemma_bound_moves(middle.moments, awaits, bound);
        assert(pane.awaited =~= awaited);
    }
}

/// The operations of pane `p` build it as the layout says.
proof fn lemma_pane_is_built(
    session: Session,
    earlier: Seq<BuiltWorkspace>,
    ws: config::WorkspaceView,
    t: int,
    p: int,
)
    requires
        engine::plannable(ws),
        0 <= t < ws.tabs.len(),
        0 <= p < ws.tabs[t].panes.len(),
        under_way(session, earlier, ws, t, p),
    ensures
        under_way(built_by(session, engine::pane_ops(ws, t, p)), earlier, ws, t, p + 1),
{
    let w = earlier.len() as int;
    let panes = ws.tabs[t].panes;
    let split = engine::pane_split(ws, t, p);
    let made = built_by(session, split);
    lemma_built_in_turn(session, split, engine::pane_start(ws, t, p));
    let after = built_by(session, engine::pane_ops(ws, t, p));
    if p == 0 {
        assert(made == session);
        lemma_start(session, earlier, ws, t, p, fresh_pane());
        lemma_planned_parts(ws, t);
        let done = after.workspaces[w].tabs[t].panes[0];
        assert(first_pane_parts(ws, t, planned_parts(ws, t)));
        assert(done.typed =~= if planned_parts(ws, t).len() == 0 {
            Seq::<Seq<char>>::empty()
        } else {
            seq![text::joined_text(planned_parts(ws, t), " && "@)]
        });
        assert(typed_into_first(ws, t, done.typed));
        assert(pane_as_laid_out(done, ws, t, 0));
    } else {
        let source = engine::source_of(panes, p);
        assert(engine::sources_exist(panes));
        if panes[p].from is Some {
            engine::lemma_last_with_id(panes, p, panes[p].from->0);
        }
        assert(split_source(panes, p, source));
        lemma_pane_directory(ws, t, p);
        let opts = backend::SplitOptsView {
            direction: panes[p].split,
            ratio: panes[p].ratio,
            cwd: engine::resolved_cwd(ws.root, ws.tabs[t].cwd, panes[p].cwd),
            env: panes[p].env,
            focus: panes[p].focus,
        };
        lemma_built_by_one(session, split[0]);
        assert(split =~= seq![split[0]]);
        lemma_split(session, earlier, ws, t, p, source, opts);
        let pane = BuiltPane { split: Some((source, opts)), ..fresh_pane() };
        lemma_start(made, earlier, ws, t, p, pane);
        assert(pane_as_laid_out(after.workspaces[w].tabs[t].panes[p], ws, t, p));
    }
}

proof fn lemma_panes_are_built(
    session: Session,
    earlier: Seq<BuiltWorkspace>,
    ws: config::WorkspaceView,
    t: int,
    n: int,
)
    requires
        engine::plannable(ws),
        0 <= t < ws.tabs.len(),
        0 <= n <= ws.tabs[t].panes.len(),
        under_way(session, earlier, ws, t, 0),
    ensures
        under_way(built_by(session, engine::panes_ops(ws, t, n)), earlier, ws, t, n),
    decreases n,
{
    if n > 0 {
        lemma_panes_are_built(session, earlier, ws, t, n - 1);
        lemma_built_in_turn(
            session,
            engine::panes_ops(ws, t, n - 1),
            engine::pane_ops(ws, t, n - 1),
        );
        lemma_pane_is_built(
            built_by(session, engine::panes_ops(ws, t, n - 1)),
            earlier,
            ws,
            t,
            n - 1,
        );
    }
}

/// Opening the next tab, once the panes of the last one stand.
proof fn lemma_tab_is_opened(
    session: Session,
    earlier: Seq<BuiltWorkspace>,
    ws: config::WorkspaceView,
    t: int,
)
    requires
        0 < t < ws.tabs.len(),
        under_way(session, earlier, ws, t - 1, ws.tabs[t - 1].panes.len() as int),
    ensures
        under_way(built_by(session, engine::tab_head(ws, t)), earlier, ws, t, 0),
{
    let w = earlier.len() as int;
    let head = engine::tab_head(ws, t);
    let after = built_by(session, head);
    let panes = ws.tabs[t - 1].panes.len() as int;
    lemma_built_by_one(session, head[0]);
    assert(head =~= seq![head[0]]);
    lemma_tab_directory(ws, t);
    let before = session.workspaces[w];
    let built = after.workspaces[w];
    assert(after.workspaces.take(w) =~= session.workspaces.take(w));
    assert forall|k: int| 0 <= k < t implies {
        &&& tab_as_laid_out(#[trigger] built.tabs[k], ws, k)
        &&& panes_as_laid_out(built.tabs[k].panes, ws, k, ws.tabs[k].panes.len() as int)
    } by {
        assert(built.tabs[k] == before.tabs[k]);
    }
    lemma_bound_moves(
        session.moments,
        next_moment(w, t - 1, panes),
        moment(w, t, 0, Stage::Made),
    );
    lemma_later(session.moments, moment(w, t, 0, Stage::Made), next_moment(w, t, 0));
}

/// Creating the workspace, and naming its first tab.
proof fn lemma_workspace_is_opened(
    session: Session,
    ws: config::WorkspaceView,
)
    requires
        ws.tabs.len() > 0,
        in_order_up_to(
            session.moments,
            moment(session.workspaces.len() as int, 0, 0, Stage::Made),
        ),
    ensures
        under_way(
            built_by(session, seq![engine::workspace_op(ws)] + engine::tab_head(ws, 0)),
            session.workspaces,
            ws,
            0,
            0,
        ),
{
    let earlier = session.workspaces;
    let w = earlier.len() as int;
    let create = seq![engine::workspace_op(ws)];
    let head = engine::tab_head(ws, 0);
    let created = built_by(session, create);
    lemma_built_by_one(session, create[0]);
    lemma_built_in_turn(session, create, head);
    lemma_later(session.moments, moment(w, 0, 0, Stage::Made), next_moment(w, 0, 0));
    assert(created.workspaces.take(w) =~= earlier);
    let after = built_by(created, head);
    if ws.tabs[0].label is Some {
        lemma_built_by_one(created, head[0]);
        assert(head =~= seq![head[0]]);
        assert(after.workspaces.take(w) =~= earlier);
    } else {
        assert(after == created);
    }
    assert(handles_known(after, w, ws, 0, 1)) by {
        assert forall|p: int| 0 <= p < 1 implies after.panes[#[trigger] engine::handle_of(
            ws.tabs,
            0,
            p,
        )] == (Place { w, t: 0, p }) by {
            assert(engine::handle_of(ws.tabs, 0, p) == HandleView::TabRoot(0));
        }
    }
}

proof fn lemma_tabs_are_built(session: Session, ws: config::WorkspaceView, n: int)
    requires
        engine::plannable(ws),
        0 < n <= ws.tabs.len(),
        in_order_up_to(
            session.moments,
            moment(session.workspaces.len() as int, 0, 0, Stage::Made),
        ),
    ensures
        under_way(
            built_by(session, seq![engine::workspace_op(ws)] + engine::tabs_ops(ws, n)),
            session.workspaces,
            ws,
            n - 1,
            ws.tabs[n - 1].panes.len() as int,
        ),
    decreases n,
{
    let earlier = session.workspaces;
    let create = seq![engine::workspace_op(ws)];
    let head = engine::tab_head(ws, n - 1);
    let panes = ws.tabs[n - 1].panes.len() as int;
    let front = engine::tabs_ops(ws, n - 1);
    let back = engine::panes_ops(ws, n - 1, panes);
    assert(create + engine::tabs_ops(ws, n) =~= (create + front + head) + back);
    lemma_built_in_turn(session, create + front + head, back);
    let opened = built_by(session, create + front + head);
    if n == 1 {
        assert(create + front + head =~= create + head);
        lemma_workspace_is_opened(session, ws);
    } else {
        lemma_tabs_are_built(session, ws, n - 1);
        lemma_built_in_turn(session, create + front, head);
        lemma_tab_is_opened(built_by(session, create + front), earlier, ws, n - 1);
    }
    lemma_panes_are_built(opened, earlier, ws, n - 1, panes);
}

/// The plan of a workspace builds it behind all others, as the layout says.
proof fn lemma_workspace_is_built(session: Session, ws: config::WorkspaceView)
    requires
        engine::plannable(ws),
        in_order_up_to(
            session.moments,
            moment(session.workspaces.len() as int, 0, 0, Stage::Made),
        ),
    ensures
        ({
            let after = built_by(session, engine::workspace_plan(ws));
            &&& after.workspaces.len() == session.workspaces.len() + 1
            &&& after.workspaces.drop_last() == session.workspaces
            &&& workspace_as_laid_out(after.workspaces.last(), ws)
            &&& in_order_up_to(
                after.moments,
                moment(after.workspaces.len() as int, 0, 0, Stage::Made),
            )
        }),
{
    let w = session.workspaces.len() as int;
    let plan = engine::workspace_plan(ws);
    let after = built_by(session, plan);
    let n = ws.tabs.len() as int;
    if n == 0 {
        let op = engine::workspace_op(ws);
        assert(plan =~= seq![op]);
        lemma_built_by_one(session, op);
        lemma_later(session.moments, moment(w, 0, 0, Stage::Made), moment(w + 1, 0, 0, Stage::Made));
        assert(after.workspaces.drop_last() =~= session.workspaces);
    } else {
        lemma_tabs_are_built(session, ws, n);
        let panes = ws.tabs[n - 1].panes.len() as int;
        assert(after.workspaces.drop_last() =~= after.workspaces.take(w));
        lemma_bound_moves(
            after.moments,
            next_moment(w, n - 1, panes),
            moment(w + 1, 0, 0, Stage::Made),
        );
    }
}

proof fn lemma_workspaces_are_built(file: Seq<config::WorkspaceView>, n: int)
    requires
        engine::plannable_file(file),
        0 <= n <= file.len(),
    ensures
        ({
            let after = built_by(nothing_built(), engine::workspaces_plan(file, n));
            &&& after.workspaces.len() == n
            &&& forall|i: int|
                0 <= i < n ==> workspace_as_laid_out(#[trigger] after.workspaces[i], file[i])
            &&& in_order_up_to(after.moments, moment(n, 0, 0, Stage::Made))
        }),
    decreases n,
{
    if n > 0 {
        lemma_workspaces_are_built(file, n - 1);
        let front = engine::workspaces_plan(file, n - 1);
        let before = built_by(nothing_built(), front);
        lemma_built_in_turn(nothing_built(), front, engine::workspace_plan(file[n - 1]));
        lemma_workspace_is_built(before, file[n - 1]);
        let after = built_by(nothing_built(), engine::workspaces_plan(file, n));
        assert forall|i: int| 0 <= i < n implies workspace_as_laid_out(
            #[trigger] after.workspaces[i],
            file[i],
        ) by {
            if i < n - 1 {
                assert(after.workspaces.drop_last()[i] == before.workspaces[i]);
            }
        }
    }
}

/// The plan of a layout builds the layout, all of it and nothing else: the
/// workspaces in order, each with its name, root, variables and focus, with its
/// tabs in order and their panes in order. A pane is split off the pane it
/// names or else the one in front of it, in its direction and with its ratio,
/// its variables and its focus, in the directory that root, tab and pane lead
/// to. What it runs is typed into it and into no other, its output is waited
/// for, and only then comes the next pane.
pub proof fn law_plans_build_the_layout(file: Seq<config::WorkspaceView>)
    requires
        engine::plannable_file(file),
    ensures
        ({
            let built = built_by(nothing_built(), engine::file_plan(file));
            &&& built.workspaces.len() == file.len()
            &&& forall|i: int|
                0 <= i < file.len() ==> workspace_as_laid_out(
                    #[trigger] built.workspaces[i],
                    file[i],
                )
            &&& in_order(built.moments)
        }),
{
    lemma_workspaces_are_built(file, file.len() as int);
}

/// The plan of one workspace builds that workspace.
pub proof fn law_workspace_plans_build_the_workspace(ws: config::WorkspaceView)
    requires
        engine::plannable(ws),
    ensures
        ({
            let built = built_by(nothing_built(), engine::workspace_plan(ws));
            &&& built.workspaces.len() == 1
            &&& workspace_as_laid_out(built.workspaces[0], ws)
            &&& in_order(built.moments)
        }),
{
    lemma_workspace_is_built(nothing_built(), ws);
}

/// Every pane behind the first of its tab that names a pane names one in front
/// of it.
pub open spec fn names_panes_in_front(panes: Seq<config::PaneView>) -> bool {
    forall|p: int|
        1 <= p < panes.len() && (#[trigger] panes[p]).from is Some ==> exists|q: int|
            0 <= q < p && (#[trigger] panes[q]).id == panes[p].from
}

proof fn lemma_names_panes_in_front(panes: Seq<config::PaneView>)
    ensures
        engine::sources_exist(panes) == names_panes_in_front(panes),
{
    assert forall|p: int| 1 <= p < panes.len() && (#[trigger] panes[p]).from is Some implies (
    engine::last_with_id(panes, p, panes[p].from->0) is Some) == (exists|q: int|
        0 <= q < p && (#[trigger] panes[q]).id == panes[p].from) by {
        engine::lemma_last_with_id(panes, p, panes[p].from->0);
    }
}

/// What can be planned: a layout in which every pane that names a pane names
/// one in front of it in the same tab, and whose splits can be counted. Nothing
/// else stands in the way.
pub proof fn law_what_can_be_planned(ws: config::WorkspaceView)
    ensures
        engine::plannable(ws) == {
            &&& forall|t: int|
                0 <= t < ws.tabs.len() ==> names_panes_in_front((#[trigger] ws.tabs[t]).panes)
            &&& engine::splits_before(ws.tabs, ws.tabs.len() as int) < usize::MAX
        },
{
    assert forall|t: int| 0 <= t < ws.tabs.len() implies engine::sources_exist(
        (#[trigger] ws.tabs[t]).panes,
    ) == names_panes_in_front(ws.tabs[t].panes) by {
        lemma_names_panes_in_front(ws.tabs[t].panes);
    }
}

/// How many splits there are: one for each pane behind the first of its tab.
pub proof fn law_splits_are_counted(tabs: Seq<config::TabView>, t: int)
    requires
        0 <= t < tabs.len(),
    ensures
        engine::splits_before(tabs, 0) == 0,
        engine::splits_before(tabs, t + 1) - engine::splits_before(tabs, t) == if tabs[t].panes.len()
            == 0 {
            0
        } else {
            tabs[t].panes.len() - 1
        },
{
}

/// Directories compose from the top down: below an absolute or relative root,
/// relative directories of tab and pane lead on, one behind the other. An
/// absolute one starts anew.
pub proof fn law_directories_compose(root: Seq<char>, tab_cwd: Seq<char>, pane_cwd: Seq<char>)
    ensures
        ({
            let cwd = engine::resolved_cwd(Some(root), Some(tab_cwd), Some(pane_cwd));
            let names = path::named(path::segments(cwd->0));
            &&& cwd is Some
            &&& !path::absolute(tab_cwd) && !path::absolute(pane_cwd) ==> {
                &&& path::absolute(cwd->0) == path::absolute(root)
                &&& names == path::named(path::segments(root)) + path::named(
                    path::segments(tab_cwd),
                ) + path::named(path::segments(pane_cwd))
            }
            &&& path::absolute(tab_cwd) && !path::absolute(pane_cwd) ==> {
                &&& path::absolute(cwd->0)
                &&& names == path::named(path::segments(tab_cwd)) + path::named(
                    path::segments(pane_cwd),
                )
            }
            &&& path::absolute(pane_cwd) ==> {
                &&& path::absolute(cwd->0)
                &&& names == path::named(path::segments(pane_cwd))
            }
        }),
{
    let upper = below(None, Some(root));
    lemma_combined_directory(Some(root), upper, Some(tab_cwd));
    lemma_combined_directory(
        engine::combined_cwd(Some(root), Some(tab_cwd)),
        below(upper, Some(tab_cwd)),
        Some(pane_cwd),
    );
}

/// Where a level says nothing, the level above decides, and where none says
/// anything there is no directory.
pub proof fn law_silent_levels_change_nothing(
    root: Option<Seq<char>>,
    tab_cwd: Option<Seq<char>>,
    pane_cwd: Option<Seq<char>>,
)
    ensures
        writes(
            engine::resolved_cwd(root, tab_cwd, pane_cwd),
            below(below(below(None, root), tab_cwd), pane_cwd),
        ),
        engine::resolved_cwd(None, None, None) is None,
{
    lemma_combined_directory(root, below(None, root), tab_cwd);
    lemma_combined_directory(
        engine::combined_cwd(root, tab_cwd),
        below(below(None, root), tab_cwd),
        pane_cwd,
    );
}

proof fn lemma_splits_grow(tabs: Seq<config::TabView>, s: int, t: int)
    requires
        0 <= s <= t <= tabs.len(),
    ensures
        engine::splits_before(tabs, s) <= engine::splits_before(tabs, t),
    decreases t - s,
{
    if s < t {
        lemma_splits_grow(tabs, s, t - 1);
    }
}

/// Handles tell panes apart: no two panes of a workspace have the same.
pub proof fn law_handles_tell_panes_apart(
    tabs: Seq<config::TabView>,
    t: int,
    p: int,
    u: int,
    q: int,
)
    requires
        0 <= t < tabs.len(),
        0 <= p < tabs[t].panes.len(),
        0 <= u < tabs.len(),
        0 <= q < tabs[u].panes.len(),
        engine::handle_of(tabs, t, p) == engine::handle_of(tabs, u, q),
    ensures
        t == u,
        p == q,
{
    if t < u {
        lemma_splits_grow(tabs, t + 1, u);
    } else if u < t {
        lemma_splits_grow(tabs, u + 1, t);
    }
}

/// An operation splits pane `p` of tab `t` off as the layout says: off the pane
/// that it names, or else the one in front of it.
pub open spec fn splits_as_laid_out(
    op: BackendOpView,
    ws: config::WorkspaceView,
    t: int,
    p: int,
    q: int,
) -> bool {
    let pane = ws.tabs[t].panes[p];
    &&& op matches BackendOpView::SplitPane { from, into, opts }
    &&& into == engine::handle_of(ws.tabs, t, p)
    &&& from == engine::handle_of(ws.tabs, t, q)
    &&& split_source(ws.tabs[t].panes, p, q)
    &&& opts.direction == pane.split
    &&& opts.ratio == pane.ratio
    &&& writes(opts.cwd, pane_directory(ws, t, p))
    &&& opts.env == pane.env
    &&& opts.focus == pane.focus
}

proof fn lemma_contained_in_panes(ws: config::WorkspaceView, t: int, p: int, n: int)
    requires
        1 <= p < n <= ws.tabs[t].panes.len(),
    ensures
        engine::panes_ops(ws, t, n).contains(engine::pane_split(ws, t, p)[0]),
    decreases n,
{
    let op = engine::pane_split(ws, t, p)[0];
    let front = engine::panes_ops(ws, t, n - 1);
    let back = engine::pane_ops(ws, t, n - 1);
    if p == n - 1 {
        assert(back[0] == op);
        assert((front + back)[front.len() as int] == op);
    } else {
        lemma_contained_in_panes(ws, t, p, n - 1);
        let i = choose|i: int| 0 <= i < front.len() && front[i] == op;
        assert((front + back)[i] == op);
    }
}

proof fn lemma_contained_in_tabs(ws: config::WorkspaceView, t: int, n: int, op: BackendOpView)
    requires
        0 <= t < n <= ws.tabs.len(),
        engine::panes_ops(ws, t, ws.tabs[t].panes.len() as int).contains(op),
    ensures
        engine::tabs_ops(ws, n).contains(op),
    decreases n,
{
    let front = engine::tabs_ops(ws, n - 1);
    let head = engine::tab_head(ws, n - 1);
    let back = engine::panes_ops(ws, n - 1, ws.tabs[n - 1].panes.len() as int);
    if t == n - 1 {
        let i = choose|i: int| 0 <= i < back.len() && back[i] == op;
        assert((front + head + back)[front.len() + head.len() + i] == op);
    } else {
        lemma_contained_in_tabs(ws, t, n - 1, op);
        let i = choose|i: int| 0 <= i < front.len() && front[i] == op;
        assert((front + head + back)[i] == op);
    }
}

/// For every pane behind the first of its tab the plan holds a split that makes
/// it, off the pane that the layout says and in the directory that root, tab
/// and pane lead to.
pub proof fn law_panes_are_split_off_as_laid_out(ws: config::WorkspaceView, t: int, p: int)
    requires
        engine::plannable(ws),
        0 <= t < ws.tabs.len(),
        1 <= p < ws.tabs[t].panes.len(),
    ensures
        exists|i: int, q: int|
            0 <= i < engine::workspace_plan(ws).len() && #[trigger] splits_as_laid_out(
                engine::workspace_plan(ws)[i],
                ws,
                t,
                p,
                q,
            ),
{
    let panes = ws.tabs[t].panes;
    let op = engine::pane_split(ws, t, p)[0];
    let plan = engine::workspace_plan(ws);
    let tabs = engine::tabs_ops(ws, ws.tabs.len() as int);
    let q = engine::source_of(panes, p);
    assert(engine::sources_exist(panes));
    if panes[p].from is Some {
        engine::lemma_last_with_id(panes, p, panes[p].from->0);
    }
    lemma_pane_directory(ws, t, p);
    lemma_contained_in_panes(ws, t, p, panes.len() as int);
    lemma_contained_in_tabs(ws, t, ws.tabs.len() as int, op);
    let i = choose|i: int| 0 <= i < tabs.len() && tabs[i] == op;
    assert(plan[i + 1] == op);
    assert(splits_as_laid_out(plan[i + 1], ws, t, p, q));
}

} // verus!
