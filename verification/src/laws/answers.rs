//! What herdr's answers mean, and what is made of them.

use vstd::prelude::*;

use crate::backend;
use crate::backend::cli;
use crate::backend::cli::{ProcessOutcome, SocketOutcome};
use crate::config;
use crate::config::{CellMetrics, SplitDirection};
use crate::json::tree;
use crate::json::tree::JsonView;
use crate::laws::commands;

verus! {

/// Of the members of an object exactly one has this key, and this value stands
/// under it.
pub open spec fn only_under(
    members: Seq<(Seq<char>, JsonView)>,
    key: Seq<char>,
    value: JsonView,
) -> bool {
    exists|i: int|
        {
            &&& 0 <= i < members.len()
            &&& #[trigger] members[i] == (key, value)
            &&& forall|j: int|
                0 <= j < members.len() && j != i ==> (#[trigger] members[j]).0 != key
        }
}

/// None of the members of an object has this key.
pub open spec fn nowhere(members: Seq<(Seq<char>, JsonView)>, key: Seq<char>) -> bool {
    forall|j: int| 0 <= j < members.len() ==> (#[trigger] members[j]).0 != key
}

/// Two of the members of an object have this key.
pub open spec fn twice(members: Seq<(Seq<char>, JsonView)>, key: Seq<char>) -> bool {
    exists|i: int, j: int|
        0 <= i < j < members.len() && (#[trigger] members[i]).0 == key && (
        #[trigger] members[j]).0 == key
}

proof fn lemma_under_key(members: Seq<(Seq<char>, JsonView)>, key: Seq<char>)
    ensures
        (tree::under_key(members, key).len() == 0) == nowhere(members, key),
        tree::under_key(members, key).len() == 1 ==> only_under(
            members,
            key,
            tree::under_key(members, key)[0],
        ),
        (tree::under_key(members, key).len() > 1) == twice(members, key),
    decreases members.len(),
{
    if members.len() > 0 {
        let front = members.drop_last();
        let last = members.last();
        let n = members.len() - 1;
        lemma_under_key(front, key);
        let before = tree::under_key(front, key);
        assert(members[n] == last);
        assert forall|j: int| 0 <= j < n implies #[trigger] members[j] == front[j] by {}
        if last.0 == key {
            if before.len() == 0 {
                assert forall|j: int| 0 <= j < members.len() && j != n implies (
                #[trigger] members[j]).0 != key by {
                    assert(front[j] == members[j]);
                }
                assert(members[n] == (key, last.1));
            } else {
                assert(!nowhere(front, key));
                let i = choose|i: int| 0 <= i < front.len() && (#[trigger] front[i]).0 == key;
                assert(members[i].0 == key && members[n].0 == key);
            }
        } else {
            if before.len() == 1 {
                let value = before[0];
                let i = choose|i: int|
                    {
                        &&& 0 <= i < front.len()
                        &&& #[trigger] front[i] == (key, value)
                        &&& forall|j: int|
                            0 <= j < front.len() && j != i ==> (#[trigger] front[j]).0 != key
                    };
                assert(members[i] == (key, value));
                assert forall|j: int| 0 <= j < members.len() && j != i implies (
                #[trigger] members[j]).0 != key by {
                    if j < n {
                        assert(front[j] == members[j]);
                    }
                }
            }
            if before.len() == 0 {
                assert forall|j: int| 0 <= j < members.len() implies (#[trigger] members[j]).0
                    != key by {
                    if j < n {
                        assert(front[j] == members[j]);
                    }
                }
            }
            if twice(front, key) {
                let (i, j) = choose|i: int, j: int|
                    0 <= i < j < front.len() && (#[trigger] front[i]).0 == key && (
                    #[trigger] front[j]).0 == key;
                assert(members[i].0 == key && members[j].0 == key);
            }
            if twice(members, key) {
                let (i, j) = choose|i: int, j: int|
                    0 <= i < j < members.len() && (#[trigger] members[i]).0 == key && (
                    #[trigger] members[j]).0 == key;
                assert(front[i].0 == key && front[j].0 == key);
            }
        }
        if !nowhere(front, key) {
            let i = choose|i: int| 0 <= i < front.len() && (#[trigger] front[i]).0 == key;
            assert(members[i].0 == key);
        }
        if last.0 != key && before.len() <= 1 && twice(members, key) {
            assert(twice(front, key));
        }
        if last.0 == key && before.len() == 0 && twice(members, key) {
            let (i, j) = choose|i: int, j: int|
                0 <= i < j < members.len() && (#[trigger] members[i]).0 == key && (
                #[trigger] members[j]).0 == key;
            assert(front[i].0 == key);
        }
    }
}

/// A field of an object is found by its name, where the name comes once. Left
/// out, it holds nothing; named twice, it makes the object no record. The
/// fields of an array are found by their places, of which there may not be too
/// many.
pub proof fn law_fields_are_found(
    members: Seq<(Seq<char>, JsonView)>,
    items: Seq<JsonView>,
    name: Seq<char>,
    position: nat,
    fields: nat,
)
    ensures
        forall|value: JsonView| #[trigger]
            only_under(members, name, value) ==> tree::field_of(
                JsonView::Object(members),
                name,
                position,
                fields,
            ) == Some(Some(value)),
        nowhere(members, name) ==> tree::field_of(
            JsonView::Object(members),
            name,
            position,
            fields,
        ) == Some(None::<JsonView>),
        twice(members, name) ==> tree::field_of(
            JsonView::Object(members),
            name,
            position,
            fields,
        ) is None,
        tree::field_of(JsonView::Array(items), name, position, fields) == if items.len() > fields {
            None
        } else if position < items.len() {
            Some(Some(items[position as int]))
        } else {
            Some(None)
        },
{
    lemma_under_key(members, name);
    let found = tree::under_key(members, name);
    assert forall|value: JsonView| #[trigger] only_under(members, name, value) implies
        tree::field_of(JsonView::Object(members), name, position, fields) == Some(
        Some(value),
    ) by {
        let i = choose|i: int|
            {
                &&& 0 <= i < members.len()
                &&& #[trigger] members[i] == (name, value)
                &&& forall|j: int|
                    0 <= j < members.len() && j != i ==> (#[trigger] members[j]).0 != name
            };
        assert(members[i].0 == name);
        assert(!nowhere(members, name));
        if twice(members, name) {
            let (a, b) = choose|a: int, b: int|
                0 <= a < b < members.len() && (#[trigger] members[a]).0 == name && (
                #[trigger] members[b]).0 == name;
            assert(a == i && b == i);
        }
        assert(found.len() == 1);
        let k = choose|k: int|
            {
                &&& 0 <= k < members.len()
                &&& #[trigger] members[k] == (name, found[0])
                &&& forall|j: int|
                    0 <= j < members.len() && j != k ==> (#[trigger] members[j]).0 != name
            };
        assert(k == i) by {
            assert(members[k].0 == name);
        }
    }
}

/// An object holds a value under a key, once.
pub open spec fn holds(object: JsonView, key: Seq<char>, value: JsonView) -> bool {
    object matches JsonView::Object(members) && only_under(members, key, value)
}

/// An object holds nothing under a key.
pub open spec fn lacks(object: JsonView, key: Seq<char>) -> bool {
    object matches JsonView::Object(members) && nowhere(members, key)
}

proof fn lemma_holds(object: JsonView, key: Seq<char>, position: nat, fields: nat)
    ensures
        forall|value: JsonView| #[trigger]
            holds(object, key, value) ==> tree::part_in(Some(object), key, position, fields)
                == Some(value) && tree::field_of(object, key, position, fields) == Some(
                Some(value),
            ),
        lacks(object, key) ==> tree::part_in(Some(object), key, position, fields) is None
            && tree::field_of(object, key, position, fields) == Some(None::<JsonView>),
{
    if let JsonView::Object(members) = object {
        law_fields_are_found(members, Seq::empty(), key, position, fields);
    }
}

/// An answer that reports an error means that error, whatever it was asked and
/// whatever else it holds.
pub proof fn law_reported_errors_come_first(
    doc: JsonView,
    error: JsonView,
    message: Seq<char>,
    pane_id: Seq<char>,
)
    requires
        holds(doc, "error"@, error),
        holds(error, "message"@, JsonView::Text(message)),
    ensures
        ({
            let e = backend::BackendErrorView::Herdr { message };
            &&& cli::workspace_created_answer(doc) == Some(
                Err::<backend::WorkspaceCreatedView, backend::BackendErrorView>(e),
            )
            &&& cli::tab_created_answer(doc) == Some(
                Err::<backend::TabCreatedView, backend::BackendErrorView>(e),
            )
            &&& cli::pane_split_answer(doc) == Some(
                Err::<Seq<char>, backend::BackendErrorView>(e),
            )
            &&& cli::pane_cwd_answer(doc) == Some(
                Err::<Option<Seq<char>>, backend::BackendErrorView>(e),
            )
            &&& cli::pane_size_answer(doc, pane_id) == Some(
                Err::<(u64, u64), backend::BackendErrorView>(e),
            )
        }),
{
    lemma_holds(doc, "error"@, 0, 1);
    lemma_holds(error, "message"@, 0, 1);
}

/// An answer with neither an error nor a result is none, and so is anything but
/// an object.
pub proof fn law_without_error_and_result_there_is_no_answer(doc: JsonView, pane_id: Seq<char>)
    requires
        !(doc is Object) || (lacks(doc, "error"@) && lacks(doc, "result"@)),
    ensures
        cli::workspace_created_answer(doc) is None,
        cli::tab_created_answer(doc) is None,
        cli::pane_split_answer(doc) is None,
        cli::pane_cwd_answer(doc) is None,
        cli::pane_size_answer(doc, pane_id) is None,
{
    lemma_holds(doc, "error"@, 0, 1);
    lemma_holds(doc, "result"@, 0, 1);
}

/// The ids of a new workspace, of its first tab and of that tab's pane are each
/// read where herdr puts them.
pub proof fn law_ids_of_a_workspace_are_read(
    doc: JsonView,
    result: JsonView,
    workspace: JsonView,
    tab: JsonView,
    pane: JsonView,
    workspace_id: Seq<char>,
    tab_id: Seq<char>,
    pane_id: Seq<char>,
)
    requires
        lacks(doc, "error"@),
        holds(doc, "result"@, result),
        holds(result, "workspace"@, workspace),
        holds(workspace, "workspace_id"@, JsonView::Text(workspace_id)),
        holds(result, "tab"@, tab),
        holds(tab, "tab_id"@, JsonView::Text(tab_id)),
        holds(result, "root_pane"@, pane),
        holds(pane, "pane_id"@, JsonView::Text(pane_id)),
    ensures
        cli::workspace_created_answer(doc) matches Some(Ok(created)) && {
            &&& created.workspace_id == workspace_id
            &&& created.tab_id == tab_id
            &&& created.root_pane_id == pane_id
        },
        cli::tab_created_answer(doc) matches Some(Ok(created)) && {
            &&& created.tab_id == tab_id
            &&& created.root_pane_id == pane_id
        },
{
    lemma_holds(doc, "error"@, 0, 1);
    lemma_holds(doc, "result"@, 0, 1);
    lemma_holds(result, "workspace"@, 0, 3);
    lemma_holds(result, "tab"@, 1, 3);
    lemma_holds(result, "root_pane"@, 2, 3);
    lemma_holds(result, "tab"@, 0, 2);
    lemma_holds(result, "root_pane"@, 1, 2);
    lemma_holds(workspace, "workspace_id"@, 0, 1);
    lemma_holds(tab, "tab_id"@, 0, 1);
    lemma_holds(pane, "pane_id"@, 0, 1);
}

/// The id of a new tab and of its pane are each read where herdr puts them.
pub proof fn law_ids_of_a_tab_are_read(
    doc: JsonView,
    result: JsonView,
    tab: JsonView,
    pane: JsonView,
    tab_id: Seq<char>,
    pane_id: Seq<char>,
)
    requires
        lacks(doc, "error"@),
        holds(doc, "result"@, result),
        holds(result, "tab"@, tab),
        holds(tab, "tab_id"@, JsonView::Text(tab_id)),
        holds(result, "root_pane"@, pane),
        holds(pane, "pane_id"@, JsonView::Text(pane_id)),
    ensures
        cli::tab_created_answer(doc) matches Some(Ok(created)) && {
            &&& created.tab_id == tab_id
            &&& created.root_pane_id == pane_id
        },
{
    lemma_holds(doc, "error"@, 0, 1);
    lemma_holds(doc, "result"@, 0, 1);
    lemma_holds(result, "tab"@, 0, 2);
    lemma_holds(result, "root_pane"@, 1, 2);
    lemma_holds(tab, "tab_id"@, 0, 1);
    lemma_holds(pane, "pane_id"@, 0, 1);
}

/// The id of a new pane, and the directory of a pane's shell, are read where
/// herdr puts them. A directory that is null or left out is none.
pub proof fn law_what_is_said_of_a_pane_is_read(doc: JsonView, result: JsonView, pane: JsonView)
    requires
        lacks(doc, "error"@),
        holds(doc, "result"@, result),
        holds(result, "pane"@, pane),
    ensures
        forall|id: Seq<char>| #[trigger]
            holds(pane, "pane_id"@, JsonView::Text(id)) ==> cli::pane_split_answer(doc) == Some(
                Ok::<Seq<char>, backend::BackendErrorView>(id),
            ),
        forall|dir: Seq<char>| #[trigger]
            holds(pane, "foreground_cwd"@, JsonView::Text(dir)) ==> cli::pane_cwd_answer(doc)
                == Some(Ok::<Option<Seq<char>>, backend::BackendErrorView>(Some(dir))),
        lacks(pane, "foreground_cwd"@) || holds(pane, "foreground_cwd"@, JsonView::Null)
            ==> cli::pane_cwd_answer(doc) == Some(
            Ok::<Option<Seq<char>>, backend::BackendErrorView>(None),
        ),
{
    lemma_holds(doc, "error"@, 0, 1);
    lemma_holds(doc, "result"@, 0, 1);
    lemma_holds(result, "pane"@, 0, 1);
    lemma_holds(pane, "pane_id"@, 0, 1);
    lemma_holds(pane, "foreground_cwd"@, 0, 1);
}

/// An object gives a width and a height.
pub open spec fn is_rect(rect: JsonView, width: u64, height: u64) -> bool {
    &&& exists|text: Seq<char>| #[trigger]
        holds(rect, "width"@, JsonView::Number { whole: Some(width), text })
    &&& exists|text: Seq<char>| #[trigger]
        holds(rect, "height"@, JsonView::Number { whole: Some(height), text })
}

proof fn lemma_rect(rect: JsonView, width: u64, height: u64)
    requires
        is_rect(rect, width, height),
    ensures
        cli::rect_in(Some(rect)) == Some((width, height)),
{
    lemma_holds(rect, "width"@, 0, 2);
    lemma_holds(rect, "height"@, 1, 2);
    let text = choose|text: Seq<char>| #[trigger]
        holds(rect, "width"@, JsonView::Number { whole: Some(width), text });
    assert(holds(rect, "width"@, JsonView::Number { whole: Some(width), text }));
    let text = choose|text: Seq<char>| #[trigger]
        holds(rect, "height"@, JsonView::Number { whole: Some(height), text });
    assert(holds(rect, "height"@, JsonView::Number { whole: Some(height), text }));
}

/// A pane of a layout has an id, a width and a height.
pub open spec fn is_layout_pane(pane: JsonView, id: Seq<char>, width: u64, height: u64) -> bool {
    &&& holds(pane, "pane_id"@, JsonView::Text(id))
    &&& exists|rect: JsonView| #[trigger]
        holds(pane, "rect"@, rect) && is_rect(rect, width, height)
}

proof fn lemma_layout_pane(pane: JsonView, id: Seq<char>, width: u64, height: u64)
    requires
        is_layout_pane(pane, id, width, height),
    ensures
        cli::layout_pane_in(pane) == Some((id, (width, height))),
{
    lemma_holds(pane, "pane_id"@, 0, 2);
    lemma_holds(pane, "rect"@, 1, 2);
    let rect = choose|rect: JsonView| #[trigger]
        holds(pane, "rect"@, rect) && is_rect(rect, width, height);
    lemma_rect(rect, width, height);
}

/// The panes of a layout have these ids and sizes, in order.
pub open spec fn are_layout_panes(
    items: Seq<JsonView>,
    panes: Seq<(Seq<char>, (u64, u64))>,
) -> bool {
    &&& items.len() == panes.len()
    &&& forall|i: int|
        0 <= i < items.len() ==> is_layout_pane(
            #[trigger] items[i],
            panes[i].0,
            panes[i].1.0,
            panes[i].1.1,
        )
}

proof fn lemma_layout_panes(items: Seq<JsonView>, panes: Seq<(Seq<char>, (u64, u64))>)
    requires
        are_layout_panes(items, panes),
    ensures
        cli::layout_panes_in(items) == Some(panes),
    decreases items.len(),
{
    if items.len() == 0 {
        assert(panes =~= Seq::empty());
    } else {
        let n = items.len() - 1;
        assert forall|i: int| 0 <= i < items.drop_last().len() implies is_layout_pane(
            #[trigger] items.drop_last()[i],
            panes.drop_last()[i].0,
            panes.drop_last()[i].1.0,
            panes.drop_last()[i].1.1,
        ) by {
            assert(is_layout_pane(items[i], panes[i].0, panes[i].1.0, panes[i].1.1));
        }
        lemma_layout_panes(items.drop_last(), panes.drop_last());
        assert(is_layout_pane(items[n], panes[n].0, panes[n].1.0, panes[n].1.1));
        lemma_layout_pane(items[n], panes[n].0, panes[n].1.0, panes[n].1.1);
        assert(panes.drop_last().push(panes.last()) =~= panes);
    }
}

proof fn lemma_size_of_pane(
    panes: Seq<(Seq<char>, (u64, u64))>,
    id: Seq<char>,
    otherwise: (u64, u64),
)
    ensures
        ({
            let size = cli::size_of_pane(panes, id, otherwise);
            ||| size == otherwise && forall|i: int|
                0 <= i < panes.len() ==> (#[trigger] panes[i]).0 != id
            ||| exists|i: int|
                0 <= i < panes.len() && #[trigger] panes[i] == (id, size) && forall|j: int|
                    0 <= j < i ==> (#[trigger] panes[j]).0 != id
        }),
    decreases panes.len(),
{
    if panes.len() > 0 {
        let size = cli::size_of_pane(panes, id, otherwise);
        if panes[0].0 == id {
            assert(panes[0] == (id, size));
        } else {
            let rest = panes.skip(1);
            lemma_size_of_pane(rest, id, otherwise);
            if exists|i: int|
                0 <= i < rest.len() && #[trigger] rest[i] == (id, size) && forall|j: int|
                    0 <= j < i ==> (#[trigger] rest[j]).0 != id {
                let i = choose|i: int|
                    0 <= i < rest.len() && #[trigger] rest[i] == (id, size) && forall|j: int|
                        0 <= j < i ==> (#[trigger] rest[j]).0 != id;
                assert(panes[i + 1] == (id, size));
                assert forall|j: int| 0 <= j < i + 1 implies (#[trigger] panes[j]).0 != id by {
                    if j > 0 {
                        assert(rest[j - 1] == panes[j]);
                    }
                }
            } else {
                assert forall|i: int| 0 <= i < panes.len() implies (#[trigger] panes[i]).0
                    != id by {
                    if i > 0 {
                        assert(rest[i - 1] == panes[i]);
                    }
                }
            }
        }
    }
}

/// The size of a pane is that of the first pane of the layout with its id, and
/// that of the whole area where there is none.
pub proof fn law_sizes_are_read_off_the_layout(
    doc: JsonView,
    result: JsonView,
    layout: JsonView,
    area: JsonView,
    width: u64,
    height: u64,
    items: Seq<JsonView>,
    panes: Seq<(Seq<char>, (u64, u64))>,
    id: Seq<char>,
)
    requires
        lacks(doc, "error"@),
        holds(doc, "result"@, result),
        holds(result, "layout"@, layout),
        holds(layout, "area"@, area),
        is_rect(area, width, height),
        are_layout_panes(items, panes),
        holds(layout, "panes"@, JsonView::Array(items)) || (panes.len() == 0 && lacks(
            layout,
            "panes"@,
        )),
    ensures
        cli::pane_size_answer(doc, id) matches Some(Ok(size)) && {
            ||| size == (width, height) && forall|i: int|
                0 <= i < panes.len() ==> (#[trigger] panes[i]).0 != id
            ||| exists|i: int|
                0 <= i < panes.len() && #[trigger] panes[i] == (id, size) && forall|j: int|
                    0 <= j < i ==> (#[trigger] panes[j]).0 != id
        },
{
    lemma_holds(doc, "error"@, 0, 1);
    lemma_holds(doc, "result"@, 0, 1);
    lemma_holds(result, "layout"@, 0, 1);
    lemma_holds(layout, "area"@, 0, 2);
    lemma_holds(layout, "panes"@, 1, 2);
    lemma_rect(area, width, height);
    lemma_layout_panes(items, panes);
    assert(cli::panes_in(Some(layout)) == Some(panes)) by {
        if lacks(layout, "panes"@) {
            assert(panes =~= Seq::empty());
        }
    }
    lemma_size_of_pane(panes, id, (width, height));
}

/// A pane is wide where it is wider than it is tall as the user sees it: in
/// pixels where the size of a cell is known, and by its cells where it is not. A
/// square one counts as wide.
pub proof fn law_wide_panes_are_wider_than_tall(cols: u64, rows: u64, cell: CellMetrics)
    ensures
        cols > rows ==> config::is_wide(cols, rows, None),
        cols < rows ==> !config::is_wide(cols, rows, None),
        cols == rows ==> config::is_wide(cols, rows, None),
        cols * cell.width > rows * cell.height ==> config::is_wide(cols, rows, Some(cell)),
        cols * cell.width < rows * cell.height ==> !config::is_wide(cols, rows, Some(cell)),
        cols * cell.width == rows * cell.height ==> config::is_wide(cols, rows, Some(cell)),
{
}

/// Choosing the side on which a pane is split goes by the longer side of that
/// pane, and changes nothing else about the split.
pub proof fn law_auto_splits_along_the_longer_side(
    from_pane: Seq<char>,
    opts: backend::SplitOptsView,
    stdout: Seq<char>,
    metrics: Option<CellMetrics>,
)
    ensures
        match (
            cli::split_opts_for(from_pane, opts, stdout, metrics),
            cli::parsed_answer(stdout, |doc: JsonView| cli::pane_size_answer(doc, from_pane)),
        ) {
            (Ok(chosen), Ok((cols, rows))) => {
                &&& chosen.ratio == opts.ratio
                &&& chosen.cwd == opts.cwd
                &&& chosen.env == opts.env
                &&& chosen.focus == opts.focus
                &&& chosen.direction != SplitDirection::Auto
                &&& metrics is None && cols >= rows ==> chosen.direction is Right
                &&& metrics is None && cols < rows ==> chosen.direction is Down
                &&& metrics matches Some(cell) ==> {
                    &&& cols * cell.width >= rows * cell.height ==> chosen.direction is Right
                    &&& cols * cell.width < rows * cell.height ==> chosen.direction is Down
                }
            },
            (Err(e), Err(reason)) => e == reason,
            _ => false,
        },
{
}

/// A command that succeeded gives what it printed. One that failed gives its
/// exit code and what it complained of; one that could not be started gives an
/// error too.
pub proof fn law_failed_commands_are_errors(bin: Seq<char>, outcome: ProcessOutcome)
    ensures
        match outcome {
            ProcessOutcome::Exited { success: true, stdout, .. } => cli::command_result(bin, outcome)
                == Ok::<Seq<char>, backend::BackendErrorView>(stdout@),
            ProcessOutcome::Exited { success: false, code, stderr, .. } => cli::command_result(
                bin,
                outcome,
            ) == Err::<Seq<char>, backend::BackendErrorView>(
                backend::BackendErrorView::CommandFailed { code, stderr: stderr@ },
            ),
            ProcessOutcome::SpawnFailed { .. } => cli::command_result(bin, outcome) is Err,
        },
{
}

/// Asking over the socket succeeds only with an answer, and an answer that
/// reports an error is one.
pub proof fn law_the_socket_succeeds_with_an_answer(
    socket_path: Seq<char>,
    outcome: SocketOutcome,
)
    ensures
        cli::socket_result(socket_path, outcome) is Ok ==> {
            &&& outcome is Answered
            &&& crate::json::json_document(outcome->line@) matches Ok(doc)
                && !doc.contains_key("/error"@)
        },
        outcome matches SocketOutcome::Answered { line } ==> (
        crate::json::json_document(line@) matches Ok(doc) ==> !doc.contains_key("/error"@)
            ==> cli::socket_result(socket_path, outcome) is Ok),
        outcome matches SocketOutcome::Unsent { error } ==> cli::socket_result(
            socket_path,
            outcome,
        ) == Err::<(), backend::BackendErrorView>(error.deep_view()),
{
}

/// Splitting a pane asks for its layout first where the side has to be chosen,
/// and splits it at once where it has not. Once the layout is known, the pane is
/// split along its longer side. Whatever is asked is asked of that pane.
pub proof fn law_how_a_pane_is_split(
    bin: Seq<char>,
    from_pane: Seq<char>,
    opts: backend::SplitOptsView,
    layout: Option<ProcessOutcome>,
    metrics: Option<CellMetrics>,
)
    ensures
        ({
            let step = cli::next_to_split(bin, from_pane, opts, layout, metrics);
            match (opts.direction, layout) {
                (SplitDirection::Auto, None) => step matches cli::SplitStepView::AskLayout(args)
                    && commands::says(args, "--pane"@, from_pane),
                (SplitDirection::Auto, Some(outcome)) => match cli::command_result(bin, outcome) {
                    Ok(stdout) => match cli::split_opts_for(from_pane, opts, stdout, metrics) {
                        Ok(chosen) => step matches cli::SplitStepView::Split(args) && args[2]
                            == from_pane && commands::says(
                            args,
                            "--direction"@,
                            if chosen.direction is Right {
                                "right"@
                            } else {
                                "down"@
                            },
                        ),
                        Err(e) => step == cli::SplitStepView::Failed(e),
                    },
                    Err(e) => step == cli::SplitStepView::Failed(e),
                },
                (direction, _) => step matches cli::SplitStepView::Split(args) && args[2]
                    == from_pane && commands::says(
                    args,
                    "--direction"@,
                    if direction is Right {
                        "right"@
                    } else {
                        "down"@
                    },
                ),
            }
        }),
{
    let asking = cli::pane_layout(from_pane);
    assert(asking[2] == "--pane"@ && asking[3] == from_pane);
    match (opts.direction, layout) {
        (SplitDirection::Auto, Some(outcome)) => {
            if let Ok(stdout) = cli::command_result(bin, outcome) {
                if let Ok(chosen) = cli::split_opts_for(from_pane, opts, stdout, metrics) {
                    commands::law_splitting_a_pane_says_all_of_it(from_pane, chosen);
                }
            }
        },
        _ => commands::law_splitting_a_pane_says_all_of_it(from_pane, opts),
    }
}

/// Focus is asked for over the socket where there is one, and by the command
/// where there is none or where the socket fails. It is given where either
/// succeeds; where both fail, the error is that of the socket.
pub proof fn law_how_a_pane_is_focused(
    bin: Seq<char>,
    socket_path: Option<Seq<char>>,
    pane_id: Seq<char>,
    socket: Option<SocketOutcome>,
    command: Option<ProcessOutcome>,
)
    ensures
        ({
            let step = cli::next_to_focus(bin, socket_path, pane_id, socket, command);
            if socket_path is Some && socket_path->0.len() > 0 {
                match (socket, command) {
                    (None, _) => step == cli::FocusStepView::AskSocket(socket_path->0),
                    (Some(asked), _) if cli::socket_result(socket_path->0, asked) is Ok => step
                        == cli::FocusStepView::Done(Ok(())),
                    (Some(_), None) => step matches cli::FocusStepView::Run(args)
                        && commands::says(args, "--pane"@, pane_id),
                    (Some(asked), Some(ran)) => step == cli::FocusStepView::Done(
                        if cli::command_result(bin, ran) is Ok {
                            Ok(())
                        } else {
                            cli::socket_result(socket_path->0, asked)
                        },
                    ),
                }
            } else {
                match command {
                    None => step matches cli::FocusStepView::Run(args) && commands::says(
                        args,
                        "--pane"@,
                        pane_id,
                    ),
                    Some(ran) => match cli::command_result(bin, ran) {
                        Ok(_) => step == cli::FocusStepView::Done(Ok(())),
                        Err(e) => step == cli::FocusStepView::Done(Err(e)),
                    },
                }
            }
        }),
{
    let args = cli::pane_focus(pane_id);
    assert(args[2] == "--pane"@ && args[3] == pane_id);
}

/// A pane's directory is a hint: it is what herdr says, and nothing where
/// anything goes wrong on the way.
pub proof fn law_a_directory_is_a_hint(bin: Seq<char>, outcome: ProcessOutcome)
    ensures
        match cli::command_result(bin, outcome) {
            Ok(stdout) => match cli::parsed_answer(
                stdout,
                |doc: JsonView| cli::pane_cwd_answer(doc),
            ) {
                Ok(cwd) => cli::pane_cwd_hint(bin, outcome) == cwd,
                Err(_) => cli::pane_cwd_hint(bin, outcome) is None,
            },
            Err(_) => cli::pane_cwd_hint(bin, outcome) is None,
        },
{
}

/// A text that opens with no document is reported in the words of the parser. A
/// document of the wrong shape is reported as such; one of the right shape
/// counts only where nothing comes behind it.
pub proof fn law_texts_are_read_as_answers(
    text: Seq<char>,
    read: spec_fn(JsonView) -> Option<Result<Seq<char>, backend::BackendErrorView>>,
)
    ensures
        ({
            let meaning = cli::parsed_answer(text, read);
            match (crate::json::json_opening(text), tree::tree_of(text)) {
                (Err(message), _) => meaning == Err::<Seq<char>, backend::BackendErrorView>(
                    backend::BackendErrorView::Herdr { message },
                ),
                (Ok(_), Some(doc)) if read(doc) is Some => match crate::json::json_document(text) {
                    Ok(_) => meaning == read(doc)->0,
                    Err(message) => meaning == Err::<Seq<char>, backend::BackendErrorView>(
                        backend::BackendErrorView::Herdr { message },
                    ),
                },
                _ => meaning is Err,
            }
        }),
{
}

} // verus!
