//! Herdr by its command line and its socket: the arguments of its commands,
//! and what its answers mean.

use serde_json::Value;
use vstd::prelude::*;

use super::{
    BackendError, SplitOpts, TabCreated, TabOpts, WorkspaceCreated, WorkspaceOpts,
};
use crate::backend;
use crate::config;
use crate::config::{CellMetrics, SplitDirection, WaitFor};
use crate::env;
use crate::env::EnvMap;
use crate::json;
use crate::json::tree;
use crate::json::tree::{field, json_tree, part, sole_text, text_of, whole, Json, JsonView};
use crate::json::{json_bytes, json_object, json_text, open_json, parse_json, text_node};
use crate::text;
use crate::text::{decimal, same_text};

verus! {

/// The arguments for a directory, if there is one.
pub open spec fn cwd_args(cwd: Option<Seq<char>>) -> Seq<Seq<char>> {
    match cwd {
        Some(cwd) => seq!["--cwd"@, cwd],
        None => Seq::empty(),
    }
}

/// The arguments for variables, in the order of their names.
pub open spec fn env_args(variables: Seq<(Seq<char>, Seq<char>)>) -> Seq<Seq<char>>
    decreases variables.len(),
{
    if variables.len() == 0 {
        Seq::empty()
    } else {
        env_args(variables.drop_last()) + seq![
            "--env"@,
            variables.last().0 + "="@ + variables.last().1,
        ]
    }
}

/// The argument that says who gets focus.
pub open spec fn focus_arg(focus: bool) -> Seq<char> {
    if focus {
        "--focus"@
    } else {
        "--no-focus"@
    }
}

/// The arguments that create a workspace.
pub open spec fn workspace_create(opts: backend::WorkspaceOptsView) -> Seq<Seq<char>> {
    seq!["workspace"@, "create"@] + cwd_args(opts.cwd) + seq!["--label"@, opts.label] + env_args(
        opts.env,
    ) + seq![focus_arg(opts.focus)]
}

/// The arguments that create a tab.
pub open spec fn tab_create(workspace_id: Seq<char>, opts: backend::TabOptsView) -> Seq<Seq<char>> {
    let label = match opts.label {
        Some(label) => seq!["--label"@, label],
        None => Seq::empty(),
    };
    seq!["tab"@, "create"@, "--workspace"@, workspace_id] + cwd_args(opts.cwd) + label + seq![
        focus_arg(opts.focus),
    ]
}

/// What a direction is called. A direction that still has to be chosen has no
/// name.
pub open spec fn direction_name(direction: SplitDirection) -> Option<Seq<char>> {
    match direction {
        SplitDirection::Right => Some("right"@),
        SplitDirection::Down => Some("down"@),
        SplitDirection::Auto => None,
    }
}

/// The arguments that split a pane in a direction with this name.
pub open spec fn pane_split(
    from_pane: Seq<char>,
    direction: Seq<char>,
    opts: backend::SplitOptsView,
) -> Seq<Seq<char>> {
    let ratio = match opts.ratio {
        Some(ratio) => seq!["--ratio"@, ratio],
        None => Seq::empty(),
    };
    seq!["pane"@, "split"@, from_pane, "--direction"@, direction] + ratio + cwd_args(opts.cwd)
        + env_args(opts.env) + seq![focus_arg(opts.focus)]
}

/// The error for a direction that still has to be chosen.
pub open spec fn unresolved_auto() -> backend::BackendErrorView {
    backend::BackendErrorView::Herdr { message: "auto split must be resolved before pane split"@ }
}

/// The arguments that split a pane, if the direction has been chosen.
pub open spec fn pane_split_result(from_pane: Seq<char>, opts: backend::SplitOptsView) -> Result<
    Seq<Seq<char>>,
    backend::BackendErrorView,
> {
    match direction_name(opts.direction) {
        Some(direction) => Ok(pane_split(from_pane, direction, opts)),
        None => Err(unresolved_auto()),
    }
}

/// The arguments that ask for the layout around a pane.
pub open spec fn pane_layout(pane_id: Seq<char>) -> Seq<Seq<char>> {
    seq!["pane"@, "layout"@, "--pane"@, pane_id]
}

/// The arguments that type a command into a pane.
pub open spec fn pane_run(pane_id: Seq<char>, command: Seq<char>) -> Seq<Seq<char>> {
    seq!["pane"@, "run"@, pane_id, command]
}

/// The arguments that wait for a pane's output.
pub open spec fn wait_output(pane_id: Seq<char>, wait: config::WaitForView) -> Seq<Seq<char>> {
    let timeout = match wait.timeout_ms {
        Some(ms) => seq!["--timeout"@, text::decimal_text(ms as nat)],
        None => Seq::empty(),
    };
    seq!["pane"@, "wait-output"@, pane_id, "--match"@, wait.pattern] + timeout
}

/// The arguments that move focus, starting from a pane.
pub open spec fn pane_focus(pane_id: Seq<char>) -> Seq<Seq<char>> {
    seq!["pane"@, "focus"@, "--pane"@, pane_id, "--direction"@, "left"@]
}

/// The arguments that rename a tab.
pub open spec fn tab_rename(tab_id: Seq<char>, label: Seq<char>) -> Seq<Seq<char>> {
    seq!["tab"@, "rename"@, tab_id, label]
}

/// The arguments that ask about a pane.
pub open spec fn pane_get(pane_id: Seq<char>) -> Seq<Seq<char>> {
    seq!["pane"@, "get"@, pane_id]
}

/// Adds one argument.
fn push_arg(args: &mut Vec<String>, arg: &str)
    ensures
        final(args).deep_view() == old(args).deep_view().push(arg@),
{
    let ghost earlier = args.deep_view();
    args.push(arg.to_string());
    assert(args.deep_view() =~= earlier.push(arg@));
}

/// The arguments, in order.
fn args_of(parts: &[&str]) -> (args: Vec<String>)
    ensures
        args.deep_view() == parts.deep_view(),
{
    let mut args: Vec<String> = Vec::new();
    let mut i: usize = 0;
    assert(args.deep_view() =~= parts.deep_view().take(0));
    while i < parts.len()
        invariant
            i <= parts.len(),
            args.deep_view() == parts.deep_view().take(i as int),
        decreases parts.len() - i,
    {
        push_arg(&mut args, parts[i]);
        proof {
            assert(parts.deep_view()[i as int] == parts[i as int]@);
            assert(parts.deep_view().take(i + 1) == parts.deep_view().take(i as int).push(
                parts.deep_view()[i as int],
            ));
        }
        i = i + 1;
    }
    assert(parts.deep_view().take(i as int) == parts.deep_view());
    args
}

fn push_cwd(args: &mut Vec<String>, cwd: &Option<String>)
    ensures
        final(args).deep_view() == old(args).deep_view() + cwd_args(cwd.deep_view()),
{
    let ghost earlier = args.deep_view();
    if let Some(cwd) = cwd {
        push_arg(args, "--cwd");
        push_arg(args, cwd.as_str());
    }
    assert(args.deep_view() =~= earlier + cwd_args(cwd.deep_view()));
}

fn push_env(args: &mut Vec<String>, variables: &EnvMap)
    ensures
        final(args).deep_view() == old(args).deep_view() + env_args(variables.deep_view()),
{
    let ghost earlier = args.deep_view();
    let ghost all = variables.deep_view();
    let mut i: usize = 0;
    assert(args.deep_view() =~= earlier + env_args(all.take(0)));
    while i < variables.len()
        invariant
            i <= all.len(),
            all == variables.deep_view(),
            args.deep_view() == earlier + env_args(all.take(i as int)),
        decreases all.len() - i,
    {
        let mut setting: String = variables.name_at(i).to_string();
        setting.append("=");
        setting.append(variables.value_at(i));
        push_arg(args, "--env");
        push_arg(args, setting.as_str());
        proof {
            assert(all.take(i + 1).drop_last() == all.take(i as int));
            assert(all.take(i + 1).last() == all[i as int]);
        }
        i = i + 1;
        assert(args.deep_view() =~= earlier + env_args(all.take(i as int)));
    }
    assert(all.take(i as int) == all);
}

fn push_focus_flag(args: &mut Vec<String>, focus: bool)
    ensures
        final(args).deep_view() == old(args).deep_view().push(focus_arg(focus)),
{
    if focus {
        push_arg(args, "--focus");
    } else {
        push_arg(args, "--no-focus");
    }
}

/// The arguments that create a workspace.
pub fn workspace_create_args(opts: &WorkspaceOpts) -> (args: Vec<String>)
    ensures
        args.deep_view() == workspace_create(opts.deep_view()),
{
    let mut args: Vec<String> = args_of(&["workspace", "create"]);
    push_cwd(&mut args, &opts.cwd);
    push_arg(&mut args, "--label");
    push_arg(&mut args, opts.label.as_str());
    push_env(&mut args, &opts.env);
    push_focus_flag(&mut args, opts.focus);
    assert(args.deep_view() =~= workspace_create(opts.deep_view()));
    args
}

/// The arguments that create a tab in a workspace.
pub fn tab_create_args(workspace_id: &str, opts: &TabOpts) -> (args: Vec<String>)
    ensures
        args.deep_view() == tab_create(workspace_id@, opts.deep_view()),
{
    let mut args: Vec<String> = args_of(&["tab", "create", "--workspace", workspace_id]);
    push_cwd(&mut args, &opts.cwd);
    if let Some(label) = &opts.label {
        push_arg(&mut args, "--label");
        push_arg(&mut args, label.as_str());
    }
    push_focus_flag(&mut args, opts.focus);
    assert(args.deep_view() =~= tab_create(workspace_id@, opts.deep_view()));
    args
}

fn direction_str(direction: SplitDirection) -> (r: Result<&'static str, BackendError>)
    ensures
        match direction_name(direction) {
            Some(name) => r is Ok && r->Ok_0@ == name,
            None => r is Err && r->Err_0.deep_view() == unresolved_auto(),
        },
{
    match direction {
        SplitDirection::Right => Ok("right"),
        SplitDirection::Down => Ok("down"),
        SplitDirection::Auto => Err(
            BackendError::Herdr {
                message: "auto split must be resolved before pane split".to_string(),
            },
        ),
    }
}

/// The arguments that split a pane.
///
/// # Errors
///
/// Returns [`BackendError::Herdr`] if the direction still has to be chosen.
pub fn pane_split_args(from_pane: &str, opts: &SplitOpts) -> (r: Result<Vec<String>, BackendError>)
    ensures
        backend::result_view(r) == pane_split_result(from_pane@, opts.deep_view()),
{
    let direction: &str = match direction_str(opts.direction) {
        Ok(direction) => direction,
        Err(e) => {
            return Err(e);
        },
    };
    let mut args: Vec<String> = args_of(&["pane", "split", from_pane, "--direction", direction]);
    if let Some(ratio) = &opts.ratio {
        push_arg(&mut args, "--ratio");
        push_arg(&mut args, ratio.decimal());
    }
    push_cwd(&mut args, &opts.cwd);
    push_env(&mut args, &opts.env);
    push_focus_flag(&mut args, opts.focus);
    assert(args.deep_view() =~= pane_split(from_pane@, direction@, opts.deep_view()));
    Ok(args)
}

/// The arguments that ask for the layout around a pane.
pub fn pane_layout_args(pane_id: &str) -> (args: Vec<String>)
    ensures
        args.deep_view() == pane_layout(pane_id@),
{
    let args: Vec<String> = args_of(&["pane", "layout", "--pane", pane_id]);
    assert(args.deep_view() =~= pane_layout(pane_id@));
    args
}

/// The arguments that type a command into a pane.
pub fn pane_run_args(pane_id: &str, command: &str) -> (args: Vec<String>)
    ensures
        args.deep_view() == pane_run(pane_id@, command@),
{
    let args: Vec<String> = args_of(&["pane", "run", pane_id, command]);
    assert(args.deep_view() =~= pane_run(pane_id@, command@));
    args
}

/// The arguments that wait for a pane's output.
pub fn wait_output_args(pane_id: &str, wait: &WaitFor) -> (args: Vec<String>)
    ensures
        args.deep_view() == wait_output(pane_id@, wait.deep_view()),
{
    let mut args: Vec<String> = args_of(
        &["pane", "wait-output", pane_id, "--match", wait.pattern.as_str()],
    );
    if let Some(ms) = wait.timeout_ms {
        push_arg(&mut args, "--timeout");
        push_arg(&mut args, decimal(ms).as_str());
    }
    assert(args.deep_view() =~= wait_output(pane_id@, wait.deep_view()));
    args
}

/// The arguments that move focus, starting from a pane.
pub fn focus_args(pane_id: &str) -> (args: Vec<String>)
    ensures
        args.deep_view() == pane_focus(pane_id@),
{
    let args: Vec<String> = args_of(&["pane", "focus", "--pane", pane_id, "--direction", "left"]);
    assert(args.deep_view() =~= pane_focus(pane_id@));
    args
}

/// The arguments that rename a tab.
pub fn rename_tab_args(tab_id: &str, label: &str) -> (args: Vec<String>)
    ensures
        args.deep_view() == tab_rename(tab_id@, label@),
{
    let args: Vec<String> = args_of(&["tab", "rename", tab_id, label]);
    assert(args.deep_view() =~= tab_rename(tab_id@, label@));
    args
}

/// The arguments that ask about a pane.
pub fn pane_get_args(pane_id: &str) -> (args: Vec<String>)
    ensures
        args.deep_view() == pane_get(pane_id@),
{
    let args: Vec<String> = args_of(&["pane", "get", pane_id]);
    assert(args.deep_view() =~= pane_get(pane_id@));
    args
}

/// The message for an answer of the wrong shape.
pub open spec fn mismatch_text() -> Seq<char> {
    "data did not match any variant of untagged enum Envelope"@
}

/// The message of an answer that reports an error.
pub open spec fn reported_error(doc: JsonView) -> Option<Seq<char>> {
    tree::sole_text_in(tree::part_in(Some(doc), "error"@, 0, 1), "message"@)
}

/// What stands under the `result` of an answer.
pub open spec fn result_in(doc: JsonView) -> Option<JsonView> {
    tree::part_in(Some(doc), "result"@, 0, 1)
}

/// What an answer means: the error it reports, else the result it carries.
/// `body` is what its `result` holds, if that has the right shape. Anything
/// else is no answer.
pub open spec fn answer<T>(doc: JsonView, body: Option<T>) -> Option<
    Result<T, backend::BackendErrorView>,
> {
    if !(doc is Object) {
        None
    } else {
        match (reported_error(doc), body) {
            (Some(message), _) => Some(Err(backend::BackendErrorView::Herdr { message })),
            (None, Some(body)) => Some(Ok(body)),
            (None, None) => None,
        }
    }
}

/// What becomes of what was read, where `stray` is the message for text behind
/// the answer.
pub open spec fn settled_answer<T>(
    read: Option<Result<T, backend::BackendErrorView>>,
    stray: Option<Seq<char>>,
) -> Result<T, backend::BackendErrorView> {
    match (read, stray) {
        (None, _) => Err(backend::BackendErrorView::Herdr { message: mismatch_text() }),
        (Some(_), Some(message)) => Err(backend::BackendErrorView::Herdr { message }),
        (Some(r), None) => r,
    }
}

/// What an answer's text means, by what its document means: the message of the
/// parser where the text opens with no document, that of a wrong shape
/// whatever comes behind the document, and that of the parser again where
/// anything does.
pub open spec fn parsed_answer<T>(
    text: Seq<char>,
    read: spec_fn(JsonView) -> Option<Result<T, backend::BackendErrorView>>,
) -> Result<T, backend::BackendErrorView> {
    match json::json_opening(text) {
        Ok(_) => settled_answer(
            match tree::tree_of(text) {
                Some(doc) => read(doc),
                None => None,
            },
            match json::json_document(text) {
                Ok(_) => None,
                Err(message) => Some(message),
            },
        ),
        Err(message) => Err(backend::BackendErrorView::Herdr { message }),
    }
}

/// The mathematical value of what was read.
pub open spec fn read_view<T: DeepView>(read: Option<Result<T, BackendError>>) -> Option<
    Result<T::V, backend::BackendErrorView>,
> {
    match read {
        Some(r) => Some(backend::result_view(r)),
        None => None,
    }
}

/// Gives an answer its meaning.
fn read_answer<T: DeepView>(doc: &Json, body: Option<T>) -> (r: Option<Result<T, BackendError>>)
    ensures
        read_view(r) == answer(doc.value(), body.deep_view()),
{
    match doc {
        Json::Object(_) => {},
        _ => {
            return None;
        },
    }
    match sole_text(part(Some(doc), "error", 0, 1), "message") {
        Some(message) => Some(Err(BackendError::Herdr { message })),
        None => match body {
            Some(body) => Some(Ok(body)),
            None => None,
        },
    }
}

/// What becomes of what was read, where `stray` is the message for text behind
/// the answer.
///
/// # Errors
///
/// Returns [`BackendError::Herdr`] if nothing was read, or if there is text
/// behind the answer, and the error that was read.
pub fn settle_answer<T: DeepView>(
    read: Option<Result<T, BackendError>>,
    stray: Option<String>,
) -> (r: Result<T, BackendError>)
    ensures
        backend::result_view(r) == settled_answer(read_view(read), stray.deep_view()),
{
    match (read, stray) {
        (None, _) => Err(
            BackendError::Herdr {
                message: "data did not match any variant of untagged enum Envelope".to_string(),
            },
        ),
        (Some(_), Some(message)) => Err(BackendError::Herdr { message }),
        (Some(r), None) => r,
    }
}

/// The document that an answer's text opens with, if there is one.
fn open_answer(text: &str) -> (r: Result<Option<Json>, BackendError>)
    ensures
        match (r, json::json_opening(text@)) {
            (Ok(Some(doc)), Ok(_)) => tree::tree_of(text@) == Some(doc.value()),
            (Ok(None), Ok(_)) => tree::tree_of(text@) is None,
            (Err(e), Err(message)) => e.deep_view() == (backend::BackendErrorView::Herdr {
                message,
            }),
            _ => false,
        },
{
    match open_json(text) {
        Ok(_) => Ok(json_tree(text)),
        Err(message) => Err(BackendError::Herdr { message }),
    }
}

/// The message for text behind the document of an answer.
fn stray_text(text: &str) -> (stray: Option<String>)
    ensures
        stray.deep_view() == match json::json_document(text@) {
            Ok(_) => None,
            Err(message) => Some(message),
        },
{
    match parse_json(text) {
        Ok(_) => None,
        Err(message) => Some(message),
    }
}

/// The ids of a new workspace, out of the result of its creation.
pub open spec fn workspace_created_in(result: Option<JsonView>) -> Option<
    backend::WorkspaceCreatedView,
> {
    let workspace = tree::sole_text_in(tree::part_in(result, "workspace"@, 0, 3), "workspace_id"@);
    let tab = tree::sole_text_in(tree::part_in(result, "tab"@, 1, 3), "tab_id"@);
    let pane = tree::sole_text_in(tree::part_in(result, "root_pane"@, 2, 3), "pane_id"@);
    match (workspace, tab, pane) {
        (Some(workspace_id), Some(tab_id), Some(root_pane_id)) => Some(
            backend::WorkspaceCreatedView { workspace_id, tab_id, root_pane_id },
        ),
        _ => None,
    }
}

/// What an answer to the creation of a workspace means.
pub open spec fn workspace_created_answer(doc: JsonView) -> Option<
    Result<backend::WorkspaceCreatedView, backend::BackendErrorView>,
> {
    answer(doc, workspace_created_in(result_in(doc)))
}

/// The ids of a new workspace, or the error, out of the answer to its creation.
/// `None` if it has another shape.
pub fn read_workspace_created(doc: &Json) -> (r: Option<Result<WorkspaceCreated, BackendError>>)
    ensures
        read_view(r) == workspace_created_answer(doc.value()),
{
    let result: Option<&Json> = part(Some(doc), "result", 0, 1);
    let workspace: Option<String> = sole_text(part(result, "workspace", 0, 3), "workspace_id");
    let tab: Option<String> = sole_text(part(result, "tab", 1, 3), "tab_id");
    let pane: Option<String> = sole_text(part(result, "root_pane", 2, 3), "pane_id");
    let body: Option<WorkspaceCreated> = match (workspace, tab, pane) {
        (Some(workspace_id), Some(tab_id), Some(root_pane_id)) => Some(
            WorkspaceCreated { workspace_id, tab_id, root_pane_id },
        ),
        _ => None,
    };
    read_answer(doc, body)
}

/// The ids of a new workspace, out of the text of the answer to its creation.
///
/// # Errors
///
/// Returns [`BackendError::Herdr`] with the error that the answer reports, or
/// if the text is no JSON or an answer of another shape.
pub fn parse_workspace_created(json: &str) -> (r: Result<WorkspaceCreated, BackendError>)
    ensures
        backend::result_view(r) == parsed_answer(
            json@,
            |doc: JsonView| workspace_created_answer(doc),
        ),
{
    match open_answer(json) {
        Ok(Some(doc)) => settle_answer(read_workspace_created(&doc), stray_text(json)),
        Ok(None) => settle_answer(None, stray_text(json)),
        Err(e) => Err(e),
    }
}

/// The ids of a new tab, out of the result of its creation.
pub open spec fn tab_created_in(result: Option<JsonView>) -> Option<backend::TabCreatedView> {
    let tab = tree::sole_text_in(tree::part_in(result, "tab"@, 0, 2), "tab_id"@);
    let pane = tree::sole_text_in(tree::part_in(result, "root_pane"@, 1, 2), "pane_id"@);
    match (tab, pane) {
        (Some(tab_id), Some(root_pane_id)) => Some(
            backend::TabCreatedView { tab_id, root_pane_id },
        ),
        _ => None,
    }
}

/// What an answer to the creation of a tab means.
pub open spec fn tab_created_answer(doc: JsonView) -> Option<
    Result<backend::TabCreatedView, backend::BackendErrorView>,
> {
    answer(doc, tab_created_in(result_in(doc)))
}

/// The ids of a new tab, or the error, out of the answer to its creation. `None`
/// if it has another shape.
pub fn read_tab_created(doc: &Json) -> (r: Option<Result<TabCreated, BackendError>>)
    ensures
        read_view(r) == tab_created_answer(doc.value()),
{
    let result: Option<&Json> = part(Some(doc), "result", 0, 1);
    let tab: Option<String> = sole_text(part(result, "tab", 0, 2), "tab_id");
    let pane: Option<String> = sole_text(part(result, "root_pane", 1, 2), "pane_id");
    let body: Option<TabCreated> = match (tab, pane) {
        (Some(tab_id), Some(root_pane_id)) => Some(TabCreated { tab_id, root_pane_id }),
        _ => None,
    };
    read_answer(doc, body)
}

/// The ids of a new tab, out of the text of the answer to its creation.
///
/// # Errors
///
/// As [`parse_workspace_created`] does.
pub fn parse_tab_created(json: &str) -> (r: Result<TabCreated, BackendError>)
    ensures
        backend::result_view(r) == parsed_answer(json@, |doc: JsonView| tab_created_answer(doc)),
{
    match open_answer(json) {
        Ok(Some(doc)) => settle_answer(read_tab_created(&doc), stray_text(json)),
        Ok(None) => settle_answer(None, stray_text(json)),
        Err(e) => Err(e),
    }
}

/// What an answer to a split means.
pub open spec fn pane_split_answer(doc: JsonView) -> Option<
    Result<Seq<char>, backend::BackendErrorView>,
> {
    answer(doc, tree::sole_text_in(tree::part_in(result_in(doc), "pane"@, 0, 1), "pane_id"@))
}

/// The id of a new pane, or the error, out of the answer to a split. `None` if
/// it has another shape.
pub fn read_pane_split(doc: &Json) -> (r: Option<Result<String, BackendError>>)
    ensures
        read_view(r) == pane_split_answer(doc.value()),
{
    let result: Option<&Json> = part(Some(doc), "result", 0, 1);
    read_answer(doc, sole_text(part(result, "pane", 0, 1), "pane_id"))
}

/// The id of a new pane, out of the text of the answer to a split.
///
/// # Errors
///
/// As [`parse_workspace_created`] does.
pub fn parse_pane_split(json: &str) -> (r: Result<String, BackendError>)
    ensures
        backend::result_view(r) == parsed_answer(json@, |doc: JsonView| pane_split_answer(doc)),
{
    match open_answer(json) {
        Ok(Some(doc)) => settle_answer(read_pane_split(&doc), stray_text(json)),
        Ok(None) => settle_answer(None, stray_text(json)),
        Err(e) => Err(e),
    }
}

/// The directory of a pane's shell, out of what is said of the pane: a text, or
/// nothing where it is null or left out.
pub open spec fn pane_cwd_in(pane: Option<JsonView>) -> Option<Option<Seq<char>>> {
    match pane {
        Some(pane) => match tree::field_of(pane, "foreground_cwd"@, 0, 1) {
            Some(None) => Some(None),
            Some(Some(JsonView::Null)) => Some(None),
            Some(Some(JsonView::Text(cwd))) => Some(Some(cwd)),
            _ => None,
        },
        None => None,
    }
}

/// What an answer to a question about a pane says of its directory.
pub open spec fn pane_cwd_answer(doc: JsonView) -> Option<
    Result<Option<Seq<char>>, backend::BackendErrorView>,
> {
    answer(doc, pane_cwd_in(tree::part_in(result_in(doc), "pane"@, 0, 1)))
}

/// The directory of a pane's shell, or the error, out of the answer to a
/// question about the pane. `None` if it has another shape.
pub fn read_pane_cwd(doc: &Json) -> (r: Option<Result<Option<String>, BackendError>>)
    ensures
        read_view(r) == pane_cwd_answer(doc.value()),
{
    let result: Option<&Json> = part(Some(doc), "result", 0, 1);
    let body: Option<Option<String>> = match part(result, "pane", 0, 1) {
        Some(pane) => match field(pane, "foreground_cwd", 0, 1) {
            Some(None) => Some(None),
            Some(Some(Json::Null)) => Some(None),
            Some(Some(Json::Text(cwd))) => Some(Some(cwd.clone())),
            _ => None,
        },
        None => None,
    };
    read_answer(doc, body)
}

/// The directory of a pane's shell, out of the text of the answer to a question
/// about the pane.
///
/// # Errors
///
/// As [`parse_workspace_created`] does.
pub fn parse_pane_cwd(json: &str) -> (r: Result<Option<String>, BackendError>)
    ensures
        backend::result_view(r) == parsed_answer(json@, |doc: JsonView| pane_cwd_answer(doc)),
{
    match open_answer(json) {
        Ok(Some(doc)) => settle_answer(read_pane_cwd(&doc), stray_text(json)),
        Ok(None) => settle_answer(None, stray_text(json)),
        Err(e) => Err(e),
    }
}

/// The width and height of a rectangle.
pub open spec fn rect_in(rect: Option<JsonView>) -> Option<(u64, u64)> {
    let width = tree::whole_in(tree::part_in(rect, "width"@, 0, 2));
    let height = tree::whole_in(tree::part_in(rect, "height"@, 1, 2));
    match (width, height) {
        (Some(width), Some(height)) => Some((width, height)),
        _ => None,
    }
}

/// A pane of a layout, by its id, and its width and height.
pub open spec fn layout_pane_in(pane: JsonView) -> Option<(Seq<char>, (u64, u64))> {
    let pane_id = tree::text_in(tree::part_in(Some(pane), "pane_id"@, 0, 2));
    let rect = rect_in(tree::part_in(Some(pane), "rect"@, 1, 2));
    match (pane_id, rect) {
        (Some(pane_id), Some(rect)) => Some((pane_id, rect)),
        _ => None,
    }
}

/// The panes of a layout, if each has the right shape.
pub open spec fn layout_panes_in(items: Seq<JsonView>) -> Option<Seq<(Seq<char>, (u64, u64))>>
    decreases items.len(),
{
    if items.len() == 0 {
        Some(Seq::empty())
    } else {
        match (layout_panes_in(items.drop_last()), layout_pane_in(items.last())) {
            (Some(panes), Some(pane)) => Some(panes.push(pane)),
            _ => None,
        }
    }
}

/// The panes of a layout, which may leave them out.
pub open spec fn panes_in(layout: Option<JsonView>) -> Option<Seq<(Seq<char>, (u64, u64))>> {
    match layout {
        Some(layout) => match tree::field_of(layout, "panes"@, 1, 2) {
            Some(None) => Some(Seq::empty()),
            Some(Some(JsonView::Array(items))) => layout_panes_in(items),
            _ => None,
        },
        None => None,
    }
}

/// The size of the first pane with this id, or `otherwise` if there is none.
pub open spec fn size_of_pane(
    panes: Seq<(Seq<char>, (u64, u64))>,
    pane_id: Seq<char>,
    otherwise: (u64, u64),
) -> (u64, u64)
    decreases panes.len(),
{
    if panes.len() == 0 {
        otherwise
    } else if panes[0].0 == pane_id {
        panes[0].1
    } else {
        size_of_pane(panes.skip(1), pane_id, otherwise)
    }
}

/// The size of a pane in a layout: that of the whole area where the pane is not
/// listed.
pub open spec fn pane_size_in(layout: Option<JsonView>, pane_id: Seq<char>) -> Option<(u64, u64)> {
    match (rect_in(tree::part_in(layout, "area"@, 0, 2)), panes_in(layout)) {
        (Some(area), Some(panes)) => Some(size_of_pane(panes, pane_id, area)),
        _ => None,
    }
}

/// What an answer to a question about the layout says of a pane's size.
pub open spec fn pane_size_answer(doc: JsonView, pane_id: Seq<char>) -> Option<
    Result<(u64, u64), backend::BackendErrorView>,
> {
    answer(doc, pane_size_in(tree::part_in(result_in(doc), "layout"@, 0, 1), pane_id))
}

fn read_rect(rect: Option<&Json>) -> (r: Option<(u64, u64)>)
    ensures
        r == rect_in(tree::value_of(rect)),
{
    let width: Option<u64> = whole(part(rect, "width", 0, 2));
    let height: Option<u64> = whole(part(rect, "height", 1, 2));
    match (width, height) {
        (Some(width), Some(height)) => Some((width, height)),
        _ => None,
    }
}

fn read_layout_pane(pane: &Json) -> (r: Option<(String, (u64, u64))>)
    ensures
        r.deep_view() == layout_pane_in(pane.value()),
{
    let pane_id: Option<String> = text_of(part(Some(pane), "pane_id", 0, 2));
    let rect: Option<(u64, u64)> = read_rect(part(Some(pane), "rect", 1, 2));
    match (pane_id, rect) {
        (Some(pane_id), Some(rect)) => Some((pane_id, rect)),
        _ => None,
    }
}

/// One pane of the wrong shape makes the whole array one.
proof fn lemma_bad_pane_stays(items: Seq<JsonView>, n: int)
    requires
        0 <= n <= items.len(),
        layout_panes_in(items.take(n)) is None,
    ensures
        layout_panes_in(items) is None,
    decreases items.len(),
{
    if n < items.len() {
        assert(items.drop_last().take(n) =~= items.take(n));
        lemma_bad_pane_stays(items.drop_last(), n);
    } else {
        assert(items.take(n) =~= items);
    }
}

fn read_layout_panes(layout: Option<&Json>) -> (r: Option<Vec<(String, (u64, u64))>>)
    ensures
        r.deep_view() == panes_in(tree::value_of(layout)),
{
    let mut panes: Vec<(String, (u64, u64))> = Vec::new();
    assert(panes.deep_view() =~= Seq::<(Seq<char>, (u64, u64))>::empty());
    let whole_layout: &Json = match layout {
        Some(layout) => layout,
        None => {
            return None;
        },
    };
    let items: &Vec<Json> = match field(whole_layout, "panes", 1, 2) {
        Some(None) => {
            return Some(panes);
        },
        Some(Some(Json::Array(items))) => items,
        _ => {
            return None;
        },
    };
    let ghost all = tree::values(items@);
    proof {
        tree::lemma_array_value(*items);
        assert(all.take(0) =~= Seq::<JsonView>::empty());
    }
    let mut i: usize = 0;
    while i < items.len()
        invariant
            i <= items.len(),
            all == tree::values(items@),
            panes_in(tree::value_of(layout)) == layout_panes_in(all),
            layout_panes_in(all.take(i as int)) == Some(panes.deep_view()),
        decreases items.len() - i,
    {
        let ghost earlier = panes.deep_view();
        proof {
            assert(all.take(i + 1).drop_last() =~= all.take(i as int));
            assert(all.take(i + 1).last() == items@[i as int].value());
        }
        match read_layout_pane(&items[i]) {
            Some(pane) => {
                panes.push(pane);
                assert(panes.deep_view() =~= earlier.push(pane.deep_view()));
            },
            None => {
                proof {
                    lemma_bad_pane_stays(all, i + 1);
                }
                return None;
            },
        }
        i = i + 1;
    }
    assert(all.take(all.len() as int) =~= all);
    Some(panes)
}

/// The size of a pane, or the error, out of the answer to a question about the
/// layout. `None` if it has another shape.
pub fn read_pane_size(doc: &Json, pane_id: &str) -> (r: Option<Result<(u64, u64), BackendError>>)
    ensures
        read_view(r) == pane_size_answer(doc.value(), pane_id@),
{
    let result: Option<&Json> = part(Some(doc), "result", 0, 1);
    let layout: Option<&Json> = part(result, "layout", 0, 1);
    let area: Option<(u64, u64)> = read_rect(part(layout, "area", 0, 2));
    let panes: Option<Vec<(String, (u64, u64))>> = read_layout_panes(layout);
    let body: Option<(u64, u64)> = match (area, panes) {
        (Some(area), Some(panes)) => Some(find_pane_size(&panes, pane_id, area)),
        _ => None,
    };
    read_answer(doc, body)
}

fn find_pane_size(panes: &Vec<(String, (u64, u64))>, pane_id: &str, otherwise: (u64, u64)) -> (size:
    (u64, u64))
    ensures
        size == size_of_pane(panes.deep_view(), pane_id@, otherwise),
{
    let ghost all = panes.deep_view();
    let mut i: usize = 0;
    assert(all.skip(0) == all);
    while i < panes.len()
        invariant
            i <= panes.len(),
            all == panes.deep_view(),
            size_of_pane(all, pane_id@, otherwise) == size_of_pane(
                all.skip(i as int),
                pane_id@,
                otherwise,
            ),
        decreases panes.len() - i,
    {
        proof {
            assert(all.skip(i as int)[0] == panes[i as int].deep_view());
            assert(all.skip(i as int).skip(1) == all.skip(i + 1));
        }
        if same_text(panes[i].0.as_str(), pane_id) {
            return panes[i].1;
        }
        i = i + 1;
    }
    otherwise
}

/// The size of a pane, out of the text of the answer to a question about the
/// layout.
///
/// # Errors
///
/// As [`parse_workspace_created`] does.
pub fn parse_pane_size(json: &str, pane_id: &str) -> (r: Result<(u64, u64), BackendError>)
    ensures
        backend::result_view(r) == parsed_answer(
            json@,
            |doc: JsonView| pane_size_answer(doc, pane_id@),
        ),
{
    match open_answer(json) {
        Ok(Some(doc)) => settle_answer(read_pane_size(&doc, pane_id), stray_text(json)),
        Ok(None) => settle_answer(None, stray_text(json)),
        Err(e) => Err(e),
    }
}

/// Strategy used to focus a pane.
#[derive(Debug, Clone, PartialEq)]
pub enum FocusStrategy {
    /// Focus via the herdr JSON-RPC Unix socket at the given path.
    Socket(String),
    /// Focus via the `herdr pane focus` CLI command.
    Cli,
}

/// The socket to focus a pane by, if there is one.
pub open spec fn usable_socket(socket_path: Option<Seq<char>>) -> Option<Seq<char>> {
    match socket_path {
        Some(path) => if path.len() > 0 {
            Some(path)
        } else {
            None
        },
        None => None,
    }
}

/// Choose the focus strategy from an optional socket path.
///
/// A `None` or empty string selects the CLI fallback.
pub fn choose_focus_strategy(socket_path: Option<&str>) -> (strategy: FocusStrategy)
    ensures
        match (strategy, usable_socket(socket_path.deep_view())) {
            (FocusStrategy::Socket(path), Some(socket)) => path@ == socket,
            (FocusStrategy::Cli, None) => true,
            _ => false,
        },
{
    match socket_path {
        Some(path) => if path.is_empty() {
            FocusStrategy::Cli
        } else {
            FocusStrategy::Socket(path.to_string())
        },
        None => FocusStrategy::Cli,
    }
}

/// What became of running the herdr command.
#[derive(Debug, Clone, PartialEq)]
pub enum ProcessOutcome {
    /// It could not be started, with the reason.
    SpawnFailed { message: String },
    /// It ran to its end.
    Exited { success: bool, code: Option<i32>, stdout: String, stderr: String },
}

/// What became of asking over the socket.
#[derive(Debug, Clone, PartialEq)]
pub enum SocketOutcome {
    /// There was no connection, with the reason.
    ConnectFailed { message: String },
    /// The request could not be sent, with the reason.
    WriteFailed { message: String },
    /// No answer could be read, with the reason.
    ReadFailed { message: String },
    /// The line that came back.
    Answered { line: String },
    /// There was nothing to send or no way to send it, with the error.
    Unsent { error: BackendError },
}

/// The nodes of a request to focus a pane.
pub open spec fn focus_request_contents(pane_id: Seq<char>) -> Map<Seq<char>, json::JsonNodeView> {
    let params = json::object_contents(seq![("pane_id"@, json::text_contents(pane_id))]);
    json::object_contents(
        seq![
            ("jsonrpc"@, json::text_contents("2.0"@)),
            ("id"@, json::text_contents("1"@)),
            ("method"@, json::text_contents("pane.focus"@)),
            ("params"@, params),
        ],
    )
}

/// The bytes of a request to focus a pane: the document, and a newline.
pub open spec fn focus_request_result(encoded: Result<Seq<u8>, Seq<char>>) -> Result<
    Seq<u8>,
    backend::BackendErrorView,
> {
    match encoded {
        Ok(bytes) => Ok(bytes.push(10)),
        Err(message) => Err(
            backend::BackendErrorView::Herdr {
                message: "failed to serialize JSON-RPC request: "@ + message,
            },
        ),
    }
}

/// The document of a request to focus a pane.
fn focus_request_document(pane_id: &str) -> (doc: Value)
    ensures
        json::json_contents(doc) == focus_request_contents(pane_id@),
{
    proof {
        reveal_strlit("pane_id");
        reveal_strlit("jsonrpc");
        reveal_strlit("id");
        reveal_strlit("method");
        reveal_strlit("params");
    }
    let pane: Value = json_text(pane_id);
    let fields: Vec<(String, Value)> = vec![("pane_id".to_string(), pane)];
    assert(json::fields_view(fields@) =~= seq![("pane_id"@, json::text_contents(pane_id@))]);
    let params: Value = json_object(fields);
    let fields: Vec<(String, Value)> = vec![
        ("jsonrpc".to_string(), json_text("2.0")),
        ("id".to_string(), json_text("1")),
        ("method".to_string(), json_text("pane.focus")),
        ("params".to_string(), params),
    ];
    proof {
        assert(fields@[0].0@[0] == 'j');
        assert(fields@[1].0@[0] == 'i');
        assert(fields@[2].0@[0] == 'm');
        assert(fields@[3].0@[0] == 'p');
        assert(json::fields_view(fields@) =~= seq![
            ("jsonrpc"@, json::text_contents("2.0"@)),
            ("id"@, json::text_contents("1"@)),
            ("method"@, json::text_contents("pane.focus"@)),
            (
                "params"@,
                json::object_contents(seq![("pane_id"@, json::text_contents(pane_id@))]),
            ),
        ]);
    }
    json_object(fields)
}

/// Ends an encoded request.
///
/// # Errors
///
/// Returns [`BackendError::Herdr`] if it could not be encoded.
pub fn end_focus_request(encoded: Result<Vec<u8>, String>) -> (r: Result<Vec<u8>, BackendError>)
    ensures
        match (encoded, r) {
            (Ok(bytes), Ok(request)) => request@ == bytes@.push(10),
            (Err(message), Err(e)) => e.deep_view() == (backend::BackendErrorView::Herdr {
                message: "failed to serialize JSON-RPC request: "@ + message@,
            }),
            _ => false,
        },
{
    match encoded {
        Ok(bytes) => {
            let mut request: Vec<u8> = bytes;
            request.push(10);
            Ok(request)
        },
        Err(message) => Err(herdr_error("failed to serialize JSON-RPC request: ", message.as_str())),
    }
}

/// The request that focuses a pane by its id, one line for the socket.
///
/// # Errors
///
/// Returns [`BackendError::Herdr`] if it could not be encoded.
pub fn focus_request(pane_id: &str) -> (r: Result<Vec<u8>, BackendError>)
    ensures
        match (r, focus_request_result(json::json_encoding(focus_request_contents(pane_id@)))) {
            (Ok(request), Ok(bytes)) => request@ == bytes,
            (Err(e), Err(expected)) => e.deep_view() == expected,
            _ => false,
        },
{
    end_focus_request(json_bytes(&focus_request_document(pane_id)))
}

/// An error made of a fixed text and a reason.
fn herdr_error(what: &str, reason: &str) -> (e: BackendError)
    ensures
        e.deep_view() == (backend::BackendErrorView::Herdr { message: what@ + reason@ }),
{
    let mut message: String = what.to_string();
    message.append(reason);
    BackendError::Herdr { message }
}

/// What the answer to a request over the socket means: done, unless it reports
/// an error.
pub open spec fn socket_answer(doc: Map<Seq<char>, json::JsonNodeView>) -> Result<
    (),
    backend::BackendErrorView,
> {
    if doc.contains_key("/error"@) {
        let message = match json::text_at(doc, "/error/message"@) {
            Some(message) => message,
            None => "unknown error"@,
        };
        Err(backend::BackendErrorView::Herdr { message: "herdr socket error: "@ + message })
    } else {
        Ok(())
    }
}

/// What a line that came back over the socket means.
pub open spec fn socket_line(line: Seq<char>) -> Result<(), backend::BackendErrorView> {
    match json::json_document(line) {
        Ok(doc) => socket_answer(doc),
        Err(reason) => Err(
            backend::BackendErrorView::Herdr { message: "invalid JSON-RPC response: "@ + reason },
        ),
    }
}

/// What the answer to a request over the socket means.
///
/// # Errors
///
/// Returns [`BackendError::Herdr`] with the error that the answer reports.
pub fn read_socket_answer(doc: &Value) -> (r: Result<(), BackendError>)
    ensures
        backend::result_view(r) == socket_answer(json::json_contents(*doc)),
{
    if json::json_at(doc, "/error").is_none() {
        return Ok(());
    }
    match text_node(doc, "/error/message") {
        Some(message) => Err(herdr_error("herdr socket error: ", message.as_str())),
        None => Err(herdr_error("herdr socket error: ", "unknown error")),
    }
}

/// What a line that came back over the socket means.
///
/// # Errors
///
/// Returns [`BackendError::Herdr`] if the line is no JSON, or reports an error.
pub fn parse_socket_line(line: &str) -> (r: Result<(), BackendError>)
    ensures
        backend::result_view(r) == socket_line(line@),
{
    match parse_json(line) {
        Ok(doc) => read_socket_answer(&doc),
        Err(reason) => Err(herdr_error("invalid JSON-RPC response: ", reason.as_str())),
    }
}

/// What asking over the socket at `socket_path` to focus a pane came to.
pub open spec fn socket_result(socket_path: Seq<char>, outcome: SocketOutcome) -> Result<
    (),
    backend::BackendErrorView,
> {
    match outcome {
        SocketOutcome::ConnectFailed { message } => Err(
            backend::BackendErrorView::Herdr {
                message: "failed to connect to herdr socket at "@ + socket_path + ": "@ + message@,
            },
        ),
        SocketOutcome::WriteFailed { message } => Err(
            backend::BackendErrorView::Herdr {
                message: "failed to write to herdr socket: "@ + message@,
            },
        ),
        SocketOutcome::ReadFailed { message } => Err(
            backend::BackendErrorView::Herdr {
                message: "failed to read from herdr socket: "@ + message@,
            },
        ),
        SocketOutcome::Answered { line } => socket_line(line@),
        SocketOutcome::Unsent { error } => Err(error.deep_view()),
    }
}

/// What asking over the socket to focus a pane came to.
///
/// # Errors
///
/// Returns [`BackendError::Herdr`] if there was no connection, the request or
/// the answer did not get through, or the answer reports an error.
pub fn focus_pane_via_socket(socket_path: &str, outcome: SocketOutcome) -> (r: Result<
    (),
    BackendError,
>)
    ensures
        backend::result_view(r) == socket_result(socket_path@, outcome),
{
    match outcome {
        SocketOutcome::ConnectFailed { message } => {
            let mut what: String = "failed to connect to herdr socket at ".to_string();
            what.append(socket_path);
            what.append(": ");
            Err(herdr_error(what.as_str(), message.as_str()))
        },
        SocketOutcome::WriteFailed { message } => Err(
            herdr_error("failed to write to herdr socket: ", message.as_str()),
        ),
        SocketOutcome::ReadFailed { message } => Err(
            herdr_error("failed to read from herdr socket: ", message.as_str()),
        ),
        SocketOutcome::Answered { line } => parse_socket_line(line.as_str()),
        SocketOutcome::Unsent { error } => Err(error),
    }
}

/// The name of the herdr command, where the environment says no other.
pub open spec fn default_bin() -> Seq<char> {
    "herdr"@
}

/// What running the herdr command at `bin` came to: what it printed, if it
/// succeeded.
pub open spec fn command_result(bin: Seq<char>, outcome: ProcessOutcome) -> Result<
    Seq<char>,
    backend::BackendErrorView,
> {
    match outcome {
        ProcessOutcome::SpawnFailed { message } => Err(
            backend::BackendErrorView::Herdr {
                message: "failed to spawn herdr binary "@ + bin + ": "@ + message@,
            },
        ),
        ProcessOutcome::Exited { success, code, stdout, stderr } => if success {
            Ok(stdout@)
        } else {
            Err(backend::BackendErrorView::CommandFailed { code, stderr: stderr@ })
        },
    }
}

/// What an answer on the command's output means, if the command succeeded.
pub open spec fn command_answer<T>(
    bin: Seq<char>,
    outcome: ProcessOutcome,
    read: spec_fn(Seq<char>) -> Result<T, backend::BackendErrorView>,
) -> Result<T, backend::BackendErrorView> {
    match command_result(bin, outcome) {
        Ok(stdout) => read(stdout),
        Err(e) => Err(e),
    }
}

/// What the shell directory of a pane is, as far as anything is known of it.
pub open spec fn pane_cwd_hint(bin: Seq<char>, outcome: ProcessOutcome) -> Option<Seq<char>> {
    match command_result(bin, outcome) {
        Ok(stdout) => match parsed_answer(
            stdout,
            |doc: JsonView| pane_cwd_answer(doc),
        ) {
            Ok(cwd) => cwd,
            Err(_) => None,
        },
        Err(_) => None,
    }
}

/// How to split a pane whose direction has to be chosen, by the layout that
/// herdr printed.
pub open spec fn split_opts_for(
    from_pane: Seq<char>,
    opts: backend::SplitOptsView,
    stdout: Seq<char>,
    metrics: Option<CellMetrics>,
) -> Result<backend::SplitOptsView, backend::BackendErrorView> {
    match parsed_answer(
        stdout,
        |doc: JsonView| pane_size_answer(doc, from_pane),
    ) {
        Ok(size) => Ok(
            backend::SplitOptsView {
                direction: if config::is_wide(size.0, size.1, metrics) {
                    SplitDirection::Right
                } else {
                    SplitDirection::Down
                },
                ..opts
            },
        ),
        Err(e) => Err(e),
    }
}

/// What to do next to split a pane.
#[derive(Debug, PartialEq)]
pub enum SplitStep {
    /// Run herdr with these arguments, which ask for the layout.
    AskLayout(Vec<String>),
    /// Run herdr with these arguments, which split the pane.
    Split(Vec<String>),
    /// Give up.
    Failed(BackendError),
}

/// What to do next to focus a pane.
#[derive(Debug, PartialEq)]
pub enum FocusStep {
    /// Ask over the socket at this path.
    AskSocket(String),
    /// Run herdr with these arguments.
    Run(Vec<String>),
    /// The pane has focus, or cannot be given it.
    Done(Result<(), BackendError>),
}

/// The mathematical value of a [`SplitStep`].
pub enum SplitStepView {
    AskLayout(Seq<Seq<char>>),
    Split(Seq<Seq<char>>),
    Failed(backend::BackendErrorView),
}

impl DeepView for SplitStep {
    type V = SplitStepView;

    open spec fn deep_view(&self) -> SplitStepView {
        match self {
            SplitStep::AskLayout(args) => SplitStepView::AskLayout(args.deep_view()),
            SplitStep::Split(args) => SplitStepView::Split(args.deep_view()),
            SplitStep::Failed(e) => SplitStepView::Failed(e.deep_view()),
        }
    }
}

/// The mathematical value of a [`FocusStep`].
pub enum FocusStepView {
    AskSocket(Seq<char>),
    Run(Seq<Seq<char>>),
    Done(Result<(), backend::BackendErrorView>),
}

impl DeepView for FocusStep {
    type V = FocusStepView;

    open spec fn deep_view(&self) -> FocusStepView {
        match self {
            FocusStep::AskSocket(path) => FocusStepView::AskSocket(path@),
            FocusStep::Run(args) => FocusStepView::Run(args.deep_view()),
            FocusStep::Done(Ok(())) => FocusStepView::Done(Ok(())),
            FocusStep::Done(Err(e)) => FocusStepView::Done(Err(e.deep_view())),
        }
    }
}

/// What to do next to split a pane.
pub open spec fn next_to_split(
    bin: Seq<char>,
    from_pane: Seq<char>,
    opts: backend::SplitOptsView,
    layout: Option<ProcessOutcome>,
    metrics: Option<CellMetrics>,
) -> SplitStepView {
    let resolved = match (opts.direction, layout) {
        (SplitDirection::Auto, Some(layout)) => Some(
            command_answer(
                bin,
                layout,
                |stdout: Seq<char>| split_opts_for(from_pane, opts, stdout, metrics),
            ),
        ),
        (SplitDirection::Auto, None) => None,
        _ => Some(Ok(opts)),
    };
    match resolved {
        Some(Ok(resolved)) => match pane_split_result(from_pane, resolved) {
            Ok(args) => SplitStepView::Split(args),
            Err(e) => SplitStepView::Failed(e),
        },
        Some(Err(e)) => SplitStepView::Failed(e),
        None => SplitStepView::AskLayout(pane_layout(from_pane)),
    }
}

/// What running the herdr command came to, if what it printed does not matter.
pub open spec fn command_finished(bin: Seq<char>, outcome: ProcessOutcome) -> Result<
    (),
    backend::BackendErrorView,
> {
    match command_result(bin, outcome) {
        Ok(_) => Ok(()),
        Err(e) => Err(e),
    }
}

/// What to do next to focus a pane.
pub open spec fn next_to_focus(
    bin: Seq<char>,
    socket_path: Option<Seq<char>>,
    pane_id: Seq<char>,
    socket: Option<SocketOutcome>,
    command: Option<ProcessOutcome>,
) -> FocusStepView {
    let asked = match (usable_socket(socket_path), socket) {
        (Some(path), Some(outcome)) => Some(socket_result(path, outcome)),
        _ => None,
    };
    match (usable_socket(socket_path), asked, command) {
        (Some(path), None, _) => FocusStepView::AskSocket(path),
        (Some(_), Some(Ok(())), _) => FocusStepView::Done(Ok(())),
        (Some(_), Some(Err(e)), Some(ran)) => FocusStepView::Done(
            if command_finished(bin, ran) is Ok {
                Ok(())
            } else {
                Err(e)
            },
        ),
        (None, _, Some(ran)) => FocusStepView::Done(command_finished(bin, ran)),
        (_, _, None) => FocusStepView::Run(pane_focus(pane_id)),
    }
}

/// Herdr by its command line, and by its socket where it has one.
pub struct CliBackend {
    bin: String,
    socket_path: Option<String>,
}

impl CliBackend {
    /// Where the herdr command is.
    pub closed spec fn bin_path(&self) -> Seq<char> {
        self.bin@
    }

    /// Where the herdr socket is, if it is known.
    pub closed spec fn socket(&self) -> Option<Seq<char>> {
        self.socket_path.deep_view()
    }

    /// Herdr by the command at `bin`, and the socket at `socket_path`.
    #[must_use]
    pub fn new(bin: String, socket_path: Option<String>) -> (backend: Self)
        ensures
            backend.bin_path() == bin@,
            backend.socket() == socket_path.deep_view(),
    {
        CliBackend { bin, socket_path }
    }

    /// Where the herdr command is: where the environment says, or on the
    /// search path.
    pub fn resolve_bin(variables: &EnvMap) -> (bin: String)
        ensures
            bin@ == match env::lookup(variables.deep_view(), "HERDR_BIN_PATH"@) {
                Some(bin) => bin,
                None => default_bin(),
            },
    {
        match variables.get("HERDR_BIN_PATH") {
            Some(bin) => bin.to_string(),
            None => "herdr".to_string(),
        }
    }

    /// Where the herdr command is.
    pub fn bin(&self) -> (bin: &str)
        ensures
            bin@ == self.bin_path(),
    {
        self.bin.as_str()
    }

    /// What running the herdr command came to.
    ///
    /// # Errors
    ///
    /// Returns [`BackendError::Herdr`] if it could not be started, and
    /// [`BackendError::CommandFailed`] if it failed.
    pub fn exec(&self, outcome: ProcessOutcome) -> (r: Result<String, BackendError>)
        ensures
            backend::result_view(r) == command_result(self.bin_path(), outcome),
    {
        match outcome {
            ProcessOutcome::SpawnFailed { message } => {
                let mut what: String = "failed to spawn herdr binary ".to_string();
                what.append(self.bin.as_str());
                what.append(": ");
                Err(herdr_error(what.as_str(), message.as_str()))
            },
            ProcessOutcome::Exited { success, code, stdout, stderr } => if success {
                Ok(stdout)
            } else {
                Err(BackendError::CommandFailed { code, stderr })
            },
        }
    }

    /// What running a command came to whose output does not matter.
    ///
    /// # Errors
    ///
    /// As [`CliBackend::exec`] does.
    pub fn finished(&self, outcome: ProcessOutcome) -> (r: Result<(), BackendError>)
        ensures
            backend::result_view(r) == command_answer(
                self.bin_path(),
                outcome,
                |stdout: Seq<char>| Ok::<(), backend::BackendErrorView>(()),
            ),
    {
        match self.exec(outcome) {
            Ok(_) => Ok(()),
            Err(e) => Err(e),
        }
    }

    /// What creating a workspace came to.
    ///
    /// # Errors
    ///
    /// As [`CliBackend::exec`] and [`parse_workspace_created`] do.
    pub fn workspace_created(&self, outcome: ProcessOutcome) -> (r: Result<
        WorkspaceCreated,
        BackendError,
    >)
        ensures
            backend::result_view(r) == command_answer(
                self.bin_path(),
                outcome,
                |stdout: Seq<char>|
                    parsed_answer(
                        stdout,
                        |doc: JsonView| workspace_created_answer(doc),
                    ),
            ),
    {
        match self.exec(outcome) {
            Ok(stdout) => parse_workspace_created(stdout.as_str()),
            Err(e) => Err(e),
        }
    }

    /// What creating a tab came to.
    ///
    /// # Errors
    ///
    /// As [`CliBackend::exec`] and [`parse_tab_created`] do.
    pub fn tab_created(&self, outcome: ProcessOutcome) -> (r: Result<TabCreated, BackendError>)
        ensures
            backend::result_view(r) == command_answer(
                self.bin_path(),
                outcome,
                |stdout: Seq<char>|
                    parsed_answer(
                        stdout,
                        |doc: JsonView| tab_created_answer(doc),
                    ),
            ),
    {
        match self.exec(outcome) {
            Ok(stdout) => parse_tab_created(stdout.as_str()),
            Err(e) => Err(e),
        }
    }

    /// What splitting a pane came to.
    ///
    /// # Errors
    ///
    /// As [`CliBackend::exec`] and [`parse_pane_split`] do.
    pub fn pane_created(&self, outcome: ProcessOutcome) -> (r: Result<String, BackendError>)
        ensures
            backend::result_view(r) == command_answer(
                self.bin_path(),
                outcome,
                |stdout: Seq<char>|
                    parsed_answer(
                        stdout,
                        |doc: JsonView| pane_split_answer(doc),
                    ),
            ),
    {
        match self.exec(outcome) {
            Ok(stdout) => parse_pane_split(stdout.as_str()),
            Err(e) => Err(e),
        }
    }

    /// A pane's current shell directory, out of what running herdr with
    /// [`pane_get_args`] came to. `None` on any failure, since this is a hint
    /// with a sensible fallback.
    #[must_use]
    pub fn query_pane_cwd(&self, outcome: ProcessOutcome) -> (cwd: Option<String>)
        ensures
            cwd.deep_view() == pane_cwd_hint(self.bin_path(), outcome),
    {
        match self.exec(outcome) {
            Ok(stdout) => match parse_pane_cwd(stdout.as_str()) {
                Ok(cwd) => cwd,
                Err(_) => None,
            },
            Err(_) => None,
        }
    }

    /// How to split `from_pane`, once the layout around it has been asked for:
    /// a direction that has to be chosen is, and nothing else changes.
    ///
    /// # Errors
    ///
    /// As [`CliBackend::exec`] and [`parse_pane_size`] do.
    pub fn resolve_split_opts(
        &self,
        from_pane: &str,
        opts: &SplitOpts,
        layout: ProcessOutcome,
        metrics: Option<CellMetrics>,
    ) -> (r: Result<SplitOpts, BackendError>)
        ensures
            backend::result_view(r) == if opts.direction == SplitDirection::Auto {
                command_answer(
                    self.bin_path(),
                    layout,
                    |stdout: Seq<char>|
                        split_opts_for(from_pane@, opts.deep_view(), stdout, metrics),
                )
            } else {
                Ok(opts.deep_view())
            },
    {
        if opts.direction != SplitDirection::Auto {
            return Ok(opts.clone());
        }
        let stdout: String = match self.exec(layout) {
            Ok(stdout) => stdout,
            Err(e) => {
                return Err(e);
            },
        };
        match parse_pane_size(stdout.as_str(), from_pane) {
            Ok(size) => {
                let direction: SplitDirection = SplitDirection::Auto.for_pane(
                    size.0,
                    size.1,
                    metrics,
                );
                Ok(
                    SplitOpts {
                        direction,
                        ratio: opts.ratio.clone(),
                        cwd: opts.cwd.clone(),
                        env: opts.env.clone(),
                        focus: opts.focus,
                    },
                )
            },
            Err(e) => Err(e),
        }
    }

    /// What to do next to split `from_pane`. The layout is asked for first
    /// where the direction has to be chosen, and `layout` is what that came to.
    pub fn split_step(
        &self,
        from_pane: &str,
        opts: &SplitOpts,
        layout: Option<ProcessOutcome>,
        metrics: Option<CellMetrics>,
    ) -> (step: SplitStep)
        ensures
            step.deep_view() == next_to_split(
                self.bin_path(),
                from_pane@,
                opts.deep_view(),
                layout,
                metrics,
            ),
            match (opts.direction, layout) {
                (SplitDirection::Auto, None) => {
                    &&& step is AskLayout
                    &&& step->AskLayout_0.deep_view() == pane_layout(from_pane@)
                },
                (SplitDirection::Auto, Some(layout)) => match command_answer(
                    self.bin_path(),
                    layout,
                    |stdout: Seq<char>|
                        split_opts_for(from_pane@, opts.deep_view(), stdout, metrics),
                ) {
                    Ok(resolved) => {
                        &&& step is Split
                        &&& step->Split_0.deep_view() == pane_split(
                            from_pane@,
                            direction_name(resolved.direction)->0,
                            resolved,
                        )
                    },
                    Err(e) => step is Failed && step->Failed_0.deep_view() == e,
                },
                (direction, _) => {
                    &&& step is Split
                    &&& step->Split_0.deep_view() == pane_split(
                        from_pane@,
                        direction_name(direction)->0,
                        opts.deep_view(),
                    )
                },
            },
    {
        let resolved: Result<SplitOpts, BackendError> = if opts.direction == SplitDirection::Auto {
            match layout {
                None => {
                    return SplitStep::AskLayout(pane_layout_args(from_pane));
                },
                Some(layout) => self.resolve_split_opts(from_pane, opts, layout, metrics),
            }
        } else {
            Ok(opts.clone())
        };
        match resolved {
            Ok(resolved) => match pane_split_args(from_pane, &resolved) {
                Ok(args) => SplitStep::Split(args),
                Err(e) => SplitStep::Failed(e),
            },
            Err(e) => SplitStep::Failed(e),
        }
    }

    /// What to do next to focus a pane. The socket comes first, where there is
    /// one: it can focus a pane by its id, and the command cannot. `socket` and
    /// `command` are what the two came to so far. Where both fail, the error is
    /// that of the socket.
    pub fn focus_step(
        &self,
        pane_id: &str,
        socket: Option<SocketOutcome>,
        command: Option<ProcessOutcome>,
    ) -> (step: FocusStep)
        ensures
            step.deep_view() == next_to_focus(
                self.bin_path(),
                self.socket(),
                pane_id@,
                socket,
                command,
            ),
            match usable_socket(self.socket()) {
                Some(path) => match socket {
                    None => step is AskSocket && step->AskSocket_0@ == path,
                    Some(asked) => match (socket_result(path, asked), command) {
                        (Ok(()), _) => step is Done && step->Done_0 is Ok,
                        (Err(_), None) => {
                            &&& step is Run
                            &&& step->Run_0.deep_view() == pane_focus(pane_id@)
                        },
                        (Err(e), Some(ran)) => {
                            &&& step is Done
                            &&& match command_result(self.bin_path(), ran) {
                                Ok(_) => step->Done_0 is Ok,
                                Err(_) => step->Done_0 is Err && step->Done_0->Err_0.deep_view()
                                    == e,
                            }
                        },
                    },
                },
                None => match command {
                    None => step is Run && step->Run_0.deep_view() == pane_focus(pane_id@),
                    Some(ran) => {
                        &&& step is Done
                        &&& match command_result(self.bin_path(), ran) {
                            Ok(_) => step->Done_0 is Ok,
                            Err(e) => step->Done_0 is Err && step->Done_0->Err_0.deep_view() == e,
                        }
                    },
                },
            },
    {
        let socket_path: Option<&str> = match &self.socket_path {
            Some(path) => Some(path.as_str()),
            None => None,
        };
        match choose_focus_strategy(socket_path) {
            FocusStrategy::Socket(path) => match socket {
                None => FocusStep::AskSocket(path),
                Some(asked) => match focus_pane_via_socket(path.as_str(), asked) {
                    Ok(()) => FocusStep::Done(Ok(())),
                    Err(e) => match command {
                        None => FocusStep::Run(focus_args(pane_id)),
                        Some(ran) => match self.exec(ran) {
                            Ok(_) => FocusStep::Done(Ok(())),
                            Err(_) => FocusStep::Done(Err(e)),
                        },
                    },
                },
            },
            FocusStrategy::Cli => match command {
                None => FocusStep::Run(focus_args(pane_id)),
                Some(ran) => FocusStep::Done(self.finished(ran)),
            },
        }
    }
}

} // verus!
