//! What holds of everything that the library's functions give back.

use vstd::prelude::*;

use crate::backend;
use crate::backend::cli;
use crate::backend::{
    BackendError, Call, HerdrBackend, Reply, SplitOpts, TabOpts, WorkspaceOpts,
};
use crate::config;
use crate::config::{CellMetrics, ConfigError, SplitDirection, SpreadFile, Workspace};
use crate::engine;
use crate::engine::execute;
use crate::engine::execute::EngineError;
use crate::engine::BackendOp;
use crate::env::EnvMap;
use crate::includes;
use crate::includes::{Facts, LoadStep};
use crate::laws;
use crate::laws::applied;
use crate::laws::built;
use crate::laws::commands;
use crate::laws::kept;
use crate::path;
use crate::validate;
use crate::validate::ValidationFinding;

verus! {

/// What [`engine::plan_workspace`] plans builds the workspace, and starts with
/// its creation: by its name, in its root, with its variables.
pub proof fn law_planned_workspaces_get_built(ws: &Workspace, ops: Vec<BackendOp>)
    requires
        engine::plannable(ws.deep_view()),
        call_ensures(engine::plan_workspace, (ws,), ops),
    ensures
        ({
            let made = built::built_by(built::nothing_built(), ops.deep_view());
            &&& made.workspaces.len() == 1
            &&& built::workspace_as_laid_out(made.workspaces[0], ws.deep_view())
            &&& built::in_order(made.moments)
        }),
        ops@.len() > 0,
        ops@[0] matches BackendOp::CreateWorkspace(opts) && {
            &&& opts.label@ == ws.name@
            &&& opts.cwd.deep_view() == ws.root.deep_view()
            &&& opts.env.deep_view() == ws.env.deep_view()
        },
{
    built::law_workspace_plans_build_the_workspace(ws.deep_view());
    assert(ops.deep_view()[0] == engine::workspace_op(ws.deep_view()));
    assert(ops.deep_view()[0] == ops@[0].deep_view());
}

/// What [`engine::plan_file`] plans builds the workspaces of the layout, in
/// order and nothing else.
pub proof fn law_planned_layouts_get_built(file: &SpreadFile, ops: Vec<BackendOp>)
    requires
        engine::plannable_file(file.deep_view()),
        call_ensures(engine::plan_file, (file,), ops),
    ensures
        ({
            let made = built::built_by(built::nothing_built(), ops.deep_view());
            &&& made.workspaces.len() == file.workspaces@.len()
            &&& forall|i: int|
                0 <= i < file.workspaces@.len() ==> built::workspace_as_laid_out(
                    #[trigger] made.workspaces[i],
                    file.workspaces@[i].deep_view(),
                )
            &&& built::in_order(made.moments)
        }),
{
    built::law_plans_build_the_layout(file.deep_view());
}

/// What [`config::resolve_workspace_paths`] gives back differs in paths alone.
pub proof fn law_resolved_workspaces_differ_in_paths(
    ws: &Workspace,
    variables: &EnvMap,
    cwd: &str,
    r: Workspace,
)
    requires
        call_ensures(config::resolve_workspace_paths, (ws, variables, cwd), r),
    ensures
        kept::same_but_paths(ws.deep_view(), r.deep_view()),
{
    kept::law_resolving_changes_nothing_but_paths(ws.deep_view(), variables.deep_view(), cwd@);
}

/// What [`config::resolve_paths`] gives back has the same workspaces in the same
/// order, and each differs in paths alone.
pub proof fn law_resolved_layouts_differ_in_paths(
    file: &SpreadFile,
    variables: &EnvMap,
    cwd: &str,
    r: SpreadFile,
)
    requires
        call_ensures(config::resolve_paths, (file, variables, cwd), r),
    ensures
        r.workspaces@.len() == file.workspaces@.len(),
        forall|i: int|
            0 <= i < file.workspaces@.len() ==> kept::same_but_paths(
                file.workspaces@[i].deep_view(),
                (#[trigger] r.workspaces@[i]).deep_view(),
            ),
{
    assert(r.deep_view().len() == file.deep_view().len());
    assert forall|i: int| 0 <= i < file.workspaces@.len() implies kept::same_but_paths(
        file.workspaces@[i].deep_view(),
        (#[trigger] r.workspaces@[i]).deep_view(),
    ) by {
        assert(r.deep_view()[i] == r.workspaces@[i].deep_view());
        assert(file.deep_view()[i] == file.workspaces@[i].deep_view());
        kept::law_resolving_changes_nothing_but_paths(
            file.workspaces@[i].deep_view(),
            variables.deep_view(),
            cwd@,
        );
    }
}

/// Where tab and pane have relative directories, what [`engine::resolve_cwd`]
/// gives back names all that the root names, then what the tab names and then
/// what the pane names.
pub proof fn law_resolved_directories_name_all_levels(
    root: &str,
    tab_cwd: &str,
    pane_cwd: &str,
    cwd: Option<String>,
)
    requires
        call_ensures(engine::resolve_cwd, (Some(root), Some(tab_cwd), Some(pane_cwd)), cwd),
        !path::absolute(tab_cwd@),
        !path::absolute(pane_cwd@),
    ensures
        cwd is Some,
        path::absolute(cwd->0@) == path::absolute(root@),
        path::named(path::segments(cwd->0@)) == path::named(path::segments(root@)) + path::named(
            path::segments(tab_cwd@),
        ) + path::named(path::segments(pane_cwd@)),
{
    built::law_directories_compose(root@, tab_cwd@, pane_cwd@);
}

/// The arguments that [`cli::workspace_create_args`] gives back say the label,
/// and set every variable.
pub proof fn law_workspace_arguments_say_all_of_it(opts: &WorkspaceOpts, args: Vec<String>)
    requires
        call_ensures(cli::workspace_create_args, (opts,), args),
    ensures
        commands::says(args.deep_view(), "--label"@, opts.label@),
        commands::says_if_any(args.deep_view(), "--cwd"@, opts.cwd.deep_view()),
        exists|at: int| #[trigger]
            commands::sets_variables(args.deep_view(), at, opts.env.deep_view()),
        commands::ends_with_focus(args.deep_view(), opts.focus),
{
    commands::law_creating_a_workspace_says_all_of_it(opts.deep_view());
}

/// The arguments that [`cli::tab_create_args`] gives back name the workspace,
/// and say the label and the directory as far as there are any.
pub proof fn law_tab_arguments_say_all_of_it(workspace_id: &str, opts: &TabOpts, args: Vec<String>)
    requires
        call_ensures(cli::tab_create_args, (workspace_id, opts), args),
    ensures
        commands::says(args.deep_view(), "--workspace"@, workspace_id@),
        commands::says_if_any(args.deep_view(), "--label"@, opts.label.deep_view()),
        commands::says_if_any(args.deep_view(), "--cwd"@, opts.cwd.deep_view()),
        commands::ends_with_focus(args.deep_view(), opts.focus),
{
    commands::law_creating_a_tab_says_all_of_it(workspace_id@, opts.deep_view());
}

/// The arguments that [`cli::pane_split_args`] gives back name the pane, the
/// side, the ratio and the directory, and set every variable. There are some
/// exactly where the side has been chosen.
pub proof fn law_split_arguments_say_all_of_it(
    from_pane: &str,
    opts: &SplitOpts,
    r: Result<Vec<String>, BackendError>,
)
    requires
        call_ensures(cli::pane_split_args, (from_pane, opts), r),
    ensures
        r is Err == (opts.direction is Auto),
        r matches Ok(args) ==> {
            &&& args.deep_view()[2] == from_pane@
            &&& commands::says(
                args.deep_view(),
                "--direction"@,
                if opts.direction is Right {
                    "right"@
                } else {
                    "down"@
                },
            )
            &&& commands::says_if_any(args.deep_view(), "--ratio"@, opts.ratio.deep_view())
            &&& commands::says_if_any(args.deep_view(), "--cwd"@, opts.cwd.deep_view())
            &&& exists|at: int| #[trigger]
                commands::sets_variables(args.deep_view(), at, opts.env.deep_view())
            &&& commands::ends_with_focus(args.deep_view(), opts.focus)
        },
{
    commands::law_splitting_a_pane_says_all_of_it(from_pane@, opts.deep_view());
    assert(backend::result_view(r) == cli::pane_split_result(from_pane@, opts.deep_view()));
}

/// [`validate::validate`] gives nothing back exactly where nothing is amiss.
pub proof fn law_validate_is_exact(file: &SpreadFile, findings: Vec<ValidationFinding>)
    requires
        call_ensures(validate::validate, (file,), findings),
    ensures
        (findings@.len() == 0) == laws::proper_layout(file.deep_view()),
{
    laws::law_validation_is_exact(file.deep_view());
    assert(findings.deep_view().len() == findings@.len());
}

/// A layout that [`includes::load_flat`] gives back has nothing amiss, and
/// every workspace of it stands in a layout file that was read, with everything
/// that is said of it there but its paths.
pub proof fn law_loaded_layouts_say_what_was_read(
    path: &str,
    base: &str,
    variables: &EnvMap,
    facts: &Facts,
    step: LoadStep,
)
    requires
        call_ensures(includes::load_flat, (path, base, variables, facts), step),
    ensures
        step matches LoadStep::Done(Ok(file)) ==> {
            &&& laws::proper_layout(file.deep_view())
            &&& kept::all_come_from_disk(facts.deep_view(), file.deep_view())
        },
{
    if let LoadStep::Done(Ok(file)) = step {
        kept::law_loading_keeps_what_layouts_say(
            facts.deep_view(),
            variables.deep_view(),
            path@,
            base@,
        );
        laws::law_validation_is_exact(file.deep_view());
    }
}

/// Where [`execute::apply`] succeeds and herdr gave no id twice, what herdr was
/// asked for is the layout.
pub proof fn law_applied_layouts_get_built<B: HerdrBackend>(
    file: &SpreadFile,
    backend: &mut B,
    r: Result<(), EngineError>,
)
    requires
        engine::plannable_file(file.deep_view()),
        call_ensures(execute::apply::<B>, (file, backend), r),
        r is Ok,
        applied::ids_differ(
            final(backend).exchanges().skip(old(backend).exchanges().len() as int),
        ),
    ensures
        ({
            let trace = final(backend).exchanges().skip(old(backend).exchanges().len() as int);
            let herdr = applied::herdr_after(trace, trace.len() as int);
            &&& herdr.workspaces.len() == file.workspaces@.len()
            &&& forall|i: int|
                0 <= i < file.workspaces@.len() ==> built::workspace_as_laid_out(
                    #[trigger] herdr.workspaces[i],
                    file.workspaces@[i].deep_view(),
                )
            &&& built::in_order(herdr.moments)
        }),
{
    let trace = final(backend).exchanges().skip(old(backend).exchanges().len() as int);
    applied::law_applying_builds_the_layout(file.deep_view(), trace);
}

/// Whatever becomes of it, [`execute::apply`] creates every tab in the workspace
/// that was created last, and renames the first tab of that one.
pub proof fn law_applying_stays_in_the_last_workspace<B: HerdrBackend>(
    file: &SpreadFile,
    backend: &mut B,
    r: Result<(), EngineError>,
)
    requires
        engine::plannable_file(file.deep_view()),
        call_ensures(execute::apply::<B>, (file, backend), r),
    ensures
        ({
            let trace = final(backend).exchanges().skip(old(backend).exchanges().len() as int);
            forall|i: int|
                0 <= i < trace.len() ==> {
                    &&& (#[trigger] trace[i]).call matches Call::CreateTab { workspace_id, .. }
                        ==> applied::is_last_workspace(trace, i, workspace_id)
                    &&& trace[i].call matches Call::RenameTab { tab_id, .. }
                        ==> applied::is_first_tab_of_last_workspace(trace, i, tab_id)
                }
        }),
{
    let trace = final(backend).exchanges().skip(old(backend).exchanges().len() as int);
    applied::law_applying_uses_the_newest_answers(file.deep_view(), trace);
}

/// What herdr refuses [`execute::apply`] is the last thing it is asked for, and
/// its words are handed on.
pub proof fn law_applying_ends_at_the_first_refusal<B: HerdrBackend>(
    file: &SpreadFile,
    backend: &mut B,
    r: Result<(), EngineError>,
)
    requires
        engine::plannable_file(file.deep_view()),
        call_ensures(execute::apply::<B>, (file, backend), r),
    ensures
        ({
            let trace = final(backend).exchanges().skip(old(backend).exchanges().len() as int);
            match r {
                Ok(()) => forall|i: int|
                    0 <= i < trace.len() ==> !((#[trigger] trace[i]).reply is Failed),
                Err(EngineError::Backend(e)) => {
                    &&& trace.len() > 0
                    &&& trace.last().reply == Reply::Failed(e.deep_view())
                    &&& forall|i: int|
                        0 <= i < trace.len() - 1 ==> !((#[trigger] trace[i]).reply is Failed)
                },
            }
        }),
{
    let trace = final(backend).exchanges().skip(old(backend).exchanges().len() as int);
    applied::law_the_first_refusal_ends_it(engine::file_plan(file.deep_view()), trace, r);
}

/// The arguments that the other commands are given say what is to be done, and
/// to what.
pub proof fn law_other_arguments_say_what_is_to_be_done(
    id: &str,
    said: &str,
    run: Vec<String>,
    rename: Vec<String>,
    get: Vec<String>,
)
    requires
        call_ensures(cli::pane_run_args, (id, said), run),
        call_ensures(cli::rename_tab_args, (id, said), rename),
        call_ensures(cli::pane_get_args, (id,), get),
    ensures
        run.deep_view() == seq!["pane"@, "run"@, id@, said@],
        rename.deep_view() == seq!["tab"@, "rename"@, id@, said@],
        get.deep_view() == seq!["pane"@, "get"@, id@],
{
}

/// What [`config::expand_tilde`] gives back has the home directory in place of a
/// tilde in front, and is the path itself where there is none.
pub proof fn law_expanded_paths_start_at_home(raw: &str, variables: &EnvMap, r: String)
    requires
        kept::names_differ(variables.deep_view()),
        call_ensures(config::expand_tilde, (raw, variables), r),
    ensures
        exists|home: Seq<char>| #[trigger]
            kept::is_home(variables.deep_view(), home) && kept::is_expanded(raw@, home, r@),
{
    kept::law_a_tilde_stands_for_home(raw@, variables.deep_view());
    assert(kept::is_home(variables.deep_view(), config::home_dir(variables.deep_view())));
}

/// A pane that [`SplitDirection::for_pane`] is to choose a side for is split
/// along its longer side, and on the right where it is square. One that has its
/// side keeps it.
pub proof fn law_chosen_sides_go_by_the_longer_side(
    asked: SplitDirection,
    cols: u64,
    rows: u64,
    cell: CellMetrics,
    by_cells: SplitDirection,
    by_pixels: SplitDirection,
)
    requires
        call_ensures(SplitDirection::for_pane, (asked, cols, rows, None), by_cells),
        call_ensures(SplitDirection::for_pane, (asked, cols, rows, Some(cell)), by_pixels),
    ensures
        !(asked is Auto) ==> by_cells == asked && by_pixels == asked,
        asked is Auto ==> {
            &&& by_cells is Right == (cols >= rows)
            &&& by_cells is Down == (cols < rows)
            &&& by_pixels is Right == (cols * cell.width >= rows * cell.height)
            &&& by_pixels is Down == (cols * cell.width < rows * cell.height)
        },
{
}

/// What [`config::resolve_config_path`] gives back is the path that was asked
/// for, and otherwise a candidate that exists.
pub proof fn law_configurations_exist_or_were_asked_for(
    explicit: Option<String>,
    variables: &EnvMap,
    present: &Vec<String>,
    r: Result<String, ConfigError>,
)
    requires
        call_ensures(config::resolve_config_path, (explicit, variables, present), r),
    ensures
        match (explicit, r) {
            (Some(asked), Ok(path)) => path@ == asked@,
            (None, Ok(path)) => present.deep_view().contains(path@)
                && config::config_candidates(variables.deep_view()).contains(path@),
            (Some(_), Err(_)) => false,
            (None, Err(_)) => forall|k: int|
                0 <= k < config::config_candidates(variables.deep_view()).len()
                    ==> !present.deep_view().contains(
                    #[trigger] config::config_candidates(variables.deep_view())[k],
                ),
        },
{
    config::law_which_configuration_is_used(
        explicit.deep_view(),
        variables.deep_view(),
        present.deep_view(),
    );
}

} // verus!
