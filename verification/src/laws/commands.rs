//! What the commands for herdr say, and what a dry run shows of them.

use vstd::prelude::*;

use crate::backend;
use crate::backend::cli;
use crate::config;
use crate::config::SplitDirection;
use crate::engine;
use crate::engine::render;
use crate::engine::{BackendOpView, HandleView};
use crate::laws::built;
use crate::laws::checked;
use crate::shell;
use crate::text;

verus! {

proof fn lemma_digit_text(d: nat)
    requires
        d < 10,
    ensures
        text::digit_text(d).len() == 1,
        config::digit(text::digit_text(d)[0]),
        checked::digit_value(text::digit_text(d)[0]) == d,
{
    reveal_strlit("0");
    reveal_strlit("1");
    reveal_strlit("2");
    reveal_strlit("3");
    reveal_strlit("4");
    reveal_strlit("5");
    reveal_strlit("6");
    reveal_strlit("7");
    reveal_strlit("8");
    reveal_strlit("9");
}

proof fn lemma_value_of_prefix(a: Seq<char>, b: Seq<char>, n: int)
    requires
        0 <= n <= a.len(),
    ensures
        checked::digits_value(a + b, 0, n) == checked::digits_value(a, 0, n),
    decreases n,
{
    if n > 0 {
        lemma_value_of_prefix(a, b, n - 1);
        assert((a + b)[n - 1] == a[n - 1]);
    }
}

/// A number reads back from its decimal text: digits alone, which have its
/// value, without a zero in front that is not needed.
pub proof fn law_numbers_read_back(n: nat)
    ensures
        text::decimal_text(n).len() > 0,
        config::digits_between(text::decimal_text(n), 0, text::decimal_text(n).len() as int),
        checked::digits_value(text::decimal_text(n), 0, text::decimal_text(n).len() as int) == n,
        text::decimal_text(n).len() > 1 ==> text::decimal_text(n)[0] != '0',
    decreases n,
{
    let all = text::decimal_text(n);
    if n < 10 {
        lemma_digit_text(n);
        assert(checked::digits_value(all, 0, 0) == 0);
        assert(checked::digits_value(all, 0, 1) == n);
    } else {
        let front = text::decimal_text(n / 10);
        let back = text::digit_text(n % 10);
        law_numbers_read_back(n / 10);
        lemma_digit_text(n % 10);
        lemma_value_of_prefix(front, back, front.len() as int);
        assert(all == front + back);
        assert forall|i: int| 0 <= i < all.len() implies config::digit(#[trigger] all[i]) by {
            if i < front.len() {
                assert(all[i] == front[i]);
            }
        }
        assert(all[all.len() - 1] == back[0]);
        if front.len() == 1 {
            assert(front[0] != '0') by {
                assert(checked::digits_value(front, 0, 0) == 0);
                assert(checked::digits_value(front, 0, 1) == checked::digit_value(front[0]));
            }
        }
    }
}

/// The arguments hold a flag with a value behind it.
pub open spec fn says(args: Seq<Seq<char>>, flag: Seq<char>, value: Seq<char>) -> bool {
    exists|k: int| 0 <= k < args.len() - 1 && #[trigger] args[k] == flag && args[k + 1] == value
}

/// The arguments hold a flag with a value behind it, if there is a value.
pub open spec fn says_if_any(
    args: Seq<Seq<char>>,
    flag: Seq<char>,
    value: Option<Seq<char>>,
) -> bool {
    value matches Some(value) ==> says(args, flag, value)
}

/// The arguments for variable `k`, where those for all start at `at`.
pub open spec fn sets_variable(
    args: Seq<Seq<char>>,
    at: int,
    variables: Seq<(Seq<char>, Seq<char>)>,
    k: int,
) -> bool {
    &&& args[at + 2 * k] == "--env"@
    &&& args[at + 2 * k + 1] == variables[k].0 + "="@ + variables[k].1
}

/// From `at` on, the arguments set all variables, in order.
pub open spec fn sets_variables(
    args: Seq<Seq<char>>,
    at: int,
    variables: Seq<(Seq<char>, Seq<char>)>,
) -> bool {
    &&& 0 <= at
    &&& at + 2 * variables.len() <= args.len()
    &&& forall|k: int|
        0 <= k < variables.len() ==> #[trigger] sets_variable(args, at, variables, k)
}

/// How many arguments something takes that may be left out.
pub open spec fn pair_if_any(value: Option<Seq<char>>) -> int {
    if value is Some {
        2
    } else {
        0
    }
}

/// The last argument says whether what is made gets focus.
pub open spec fn ends_with_focus(args: Seq<Seq<char>>, focus: bool) -> bool {
    args.last() == if focus {
        "--focus"@
    } else {
        "--no-focus"@
    }
}

proof fn lemma_env_args(variables: Seq<(Seq<char>, Seq<char>)>)
    ensures
        cli::env_args(variables).len() == 2 * variables.len(),
        sets_variables(cli::env_args(variables), 0, variables),
    decreases variables.len(),
{
    if variables.len() > 0 {
        let front = variables.drop_last();
        lemma_env_args(front);
        let all = cli::env_args(variables);
        assert forall|k: int| 0 <= k < variables.len() implies #[trigger] sets_variable(
            all,
            0,
            variables,
            k,
        ) by {
            if k < front.len() {
                assert(sets_variable(cli::env_args(front), 0, front, k));
            }
        }
    }
}

proof fn lemma_sets_variables_inside(
    front: Seq<Seq<char>>,
    back: Seq<Seq<char>>,
    variables: Seq<(Seq<char>, Seq<char>)>,
)
    ensures
        sets_variables(front + cli::env_args(variables) + back, front.len() as int, variables),
{
    lemma_env_args(variables);
    let env = cli::env_args(variables);
    let all = front + env + back;
    assert forall|k: int| 0 <= k < variables.len() implies #[trigger] sets_variable(
        all,
        front.len() as int,
        variables,
        k,
    ) by {
        assert(sets_variable(env, 0, variables, k));
        assert(all[front.len() + 2 * k] == env[2 * k]);
        assert(all[front.len() + 2 * k + 1] == env[2 * k + 1]);
    }
}

/// The command that creates a workspace names it, says where it starts, sets
/// its variables, says who gets focus, and says nothing else.
pub proof fn law_creating_a_workspace_says_all_of_it(opts: backend::WorkspaceOptsView)
    ensures
        ({
            let args = cli::workspace_create(opts);
            &&& args[0] == "workspace"@
            &&& args[1] == "create"@
            &&& says(args, "--label"@, opts.label)
            &&& says_if_any(args, "--cwd"@, opts.cwd)
            &&& exists|at: int| #[trigger] sets_variables(args, at, opts.env)
            &&& forall|k: int|
                0 <= k < opts.env.len() ==> says(
                    args,
                    "--env"@,
                    (#[trigger] opts.env[k]).0 + "="@ + opts.env[k].1,
                )
            &&& ends_with_focus(args, opts.focus)
            &&& args.len() == 5 + pair_if_any(opts.cwd) + 2 * opts.env.len()
        }),
{
    let args = cli::workspace_create(opts);
    let cwd = cli::cwd_args(opts.cwd);
    let front = seq!["workspace"@, "create"@] + cwd + seq!["--label"@, opts.label];
    let back = seq![cli::focus_arg(opts.focus)];
    lemma_env_args(opts.env);
    lemma_sets_variables_inside(front, back, opts.env);
    assert(args =~= front + cli::env_args(opts.env) + back);
    let at = front.len() as int;
    assert(args[at - 2] == "--label"@ && args[at - 1] == opts.label);
    if opts.cwd is Some {
        assert(args[2] == "--cwd"@ && args[3] == opts.cwd->0);
    }
    assert forall|k: int| 0 <= k < opts.env.len() implies says(
        args,
        "--env"@,
        (#[trigger] opts.env[k]).0 + "="@ + opts.env[k].1,
    ) by {
        assert(sets_variable(args, at, opts.env, k));
        assert(args[(at + 2 * k) + 1] == opts.env[k].0 + "="@ + opts.env[k].1);
    }
}

/// The command that creates a tab names its workspace, names the tab and says
/// where it starts as far as the layout does, says who gets focus, and says
/// nothing else.
pub proof fn law_creating_a_tab_says_all_of_it(
    workspace_id: Seq<char>,
    opts: backend::TabOptsView,
)
    ensures
        ({
            let args = cli::tab_create(workspace_id, opts);
            &&& args[0] == "tab"@
            &&& args[1] == "create"@
            &&& says(args, "--workspace"@, workspace_id)
            &&& says_if_any(args, "--label"@, opts.label)
            &&& says_if_any(args, "--cwd"@, opts.cwd)
            &&& ends_with_focus(args, opts.focus)
            &&& args.len() == 5 + pair_if_any(opts.cwd) + pair_if_any(opts.label)
        }),
{
    let args = cli::tab_create(workspace_id, opts);
    assert(args[2] == "--workspace"@ && args[3] == workspace_id);
    if opts.cwd is Some {
        assert(args[4] == "--cwd"@ && args[5] == opts.cwd->0);
    }
    if opts.label is Some {
        let at = 4 + pair_if_any(opts.cwd);
        assert(args[at] == "--label"@ && args[at + 1] == opts.label->0);
    }
}

/// The command that splits a pane names the pane and the side, says how much
/// of it the new pane gets and where that starts as far as the layout does,
/// sets its variables, says who gets focus, and says nothing else. There is none
/// while the side still has to be chosen.
pub proof fn law_splitting_a_pane_says_all_of_it(
    from_pane: Seq<char>,
    opts: backend::SplitOptsView,
)
    ensures
        match (cli::pane_split_result(from_pane, opts), opts.direction) {
            (Err(_), SplitDirection::Auto) => true,
            (_, SplitDirection::Auto) => false,
            (Ok(args), direction) => {
                &&& args[0] == "pane"@
                &&& args[1] == "split"@
                &&& args[2] == from_pane
                &&& says(
                    args,
                    "--direction"@,
                    if direction is Right {
                        "right"@
                    } else {
                        "down"@
                    },
                )
                &&& says_if_any(args, "--ratio"@, opts.ratio)
                &&& says_if_any(args, "--cwd"@, opts.cwd)
                &&& exists|at: int| #[trigger] sets_variables(args, at, opts.env)
                &&& forall|k: int|
                    0 <= k < opts.env.len() ==> says(
                        args,
                        "--env"@,
                        (#[trigger] opts.env[k]).0 + "="@ + opts.env[k].1,
                    )
                &&& ends_with_focus(args, opts.focus)
                &&& args.len() == 6 + pair_if_any(opts.ratio) + pair_if_any(opts.cwd) + 2
                    * opts.env.len()
            },
            (Err(_), _) => false,
        },
{
    if let Ok(args) = cli::pane_split_result(from_pane, opts) {
        let direction = cli::direction_name(opts.direction)->0;
        let ratio: Seq<Seq<char>> = match opts.ratio {
            Some(ratio) => seq!["--ratio"@, ratio],
            None => Seq::empty(),
        };
        let head = seq!["pane"@, "split"@, from_pane, "--direction"@, direction] + ratio;
        let front = head + cli::cwd_args(opts.cwd);
        let back = seq![cli::focus_arg(opts.focus)];
        lemma_env_args(opts.env);
        lemma_sets_variables_inside(front, back, opts.env);
        assert(args =~= front + cli::env_args(opts.env) + back);
        assert(args[3] == "--direction"@ && args[4] == direction);
        if opts.ratio is Some {
            assert(args[5] == "--ratio"@ && args[6] == opts.ratio->0);
        }
        let at = front.len() as int;
        if opts.cwd is Some {
            assert(args[at - 2] == "--cwd"@ && args[at - 1] == opts.cwd->0);
        }
        assert forall|k: int| 0 <= k < opts.env.len() implies says(
            args,
            "--env"@,
            (#[trigger] opts.env[k]).0 + "="@ + opts.env[k].1,
        ) by {
            assert(sets_variable(args, at, opts.env, k));
            assert(args[(at + 2 * k) + 1] == opts.env[k].0 + "="@ + opts.env[k].1);
        }
    }
}

/// The commands that do something to a pane or a tab name it by its id and say
/// what is to be done: a line to type, a pattern to wait for with the time that
/// may pass, a name.
pub proof fn law_other_commands_say_what_is_to_be_done(
    id: Seq<char>,
    said: Seq<char>,
    wait: config::WaitForView,
)
    ensures
        cli::pane_run(id, said) == seq!["pane"@, "run"@, id, said],
        cli::tab_rename(id, said) == seq!["tab"@, "rename"@, id, said],
        cli::pane_get(id) == seq!["pane"@, "get"@, id],
        ({
            let args = cli::wait_output(id, wait);
            &&& args.take(3) == seq!["pane"@, "wait-output"@, id]
            &&& says(args, "--match"@, wait.pattern)
            &&& wait.timeout_ms matches Some(ms) ==> exists|digits: Seq<char>| #[trigger]
                says(args, "--timeout"@, digits) && config::digits_between(
                    digits,
                    0,
                    digits.len() as int,
                ) && checked::digits_value(digits, 0, digits.len() as int) == ms
            &&& args.len() == if wait.timeout_ms is Some {
                7int
            } else {
                5
            }
        }),
{
    let args = cli::wait_output(id, wait);
    assert(args.take(3) =~= seq!["pane"@, "wait-output"@, id]);
    assert(args[3] == "--match"@ && args[4] == wait.pattern);
    if wait.timeout_ms is Some {
        let digits = text::decimal_text(wait.timeout_ms->0 as nat);
        law_numbers_read_back(wait.timeout_ms->0 as nat);
        assert(args[5] == "--timeout"@ && args[6] == digits);
        assert(says(args, "--timeout"@, digits));
    }
}

/// The plan of a workspace starts with its creation, by its name, in its root
/// and with its variables: the command for that sets every one of them.
pub proof fn law_workspaces_get_their_variables(ws: config::WorkspaceView, k: int)
    requires
        0 <= k < ws.env.len(),
    ensures
        engine::workspace_plan(ws).len() > 0,
        engine::workspace_plan(ws)[0] matches BackendOpView::CreateWorkspace(opts) && {
            &&& opts.label == ws.name
            &&& opts.cwd == ws.root
            &&& opts.env == ws.env
            &&& says(
                cli::workspace_create(opts),
                "--env"@,
                ws.env[k].0 + "="@ + ws.env[k].1,
            )
        },
{
    if let BackendOpView::CreateWorkspace(opts) = engine::workspace_plan(ws)[0] {
        law_creating_a_workspace_says_all_of_it(opts);
        assert(opts.env[k] == ws.env[k]);
    }
}

/// A line shows a text.
pub open spec fn shows(line: Seq<char>, part: Seq<char>) -> bool {
    exists|before: Seq<char>, after: Seq<char>| line == #[trigger] (before + part + after)
}

/// A line shows a text and a shell word for a value behind it.
pub open spec fn shows_word(line: Seq<char>, head: Seq<char>, value: Seq<char>) -> bool {
    exists|word: Seq<char>| #[trigger] built::is_word_for(word, value) && shows(line, head + word)
}

/// A line shows the directory where something starts, if there is one.
pub open spec fn shows_cwd(line: Seq<char>, cwd: Option<Seq<char>>) -> bool {
    cwd matches Some(cwd) ==> shows(line, " --cwd "@ + cwd)
}

/// A line shows every variable.
pub open spec fn shows_variables(
    line: Seq<char>,
    variables: Seq<(Seq<char>, Seq<char>)>,
) -> bool {
    forall|k: int|
        0 <= k < variables.len() ==> shows_word(
            line,
            " --env "@ + (#[trigger] variables[k]).0 + "="@,
            variables[k].1,
        )
}

/// A line ends by saying who gets focus.
pub open spec fn shows_focus(line: Seq<char>, focus: bool) -> bool {
    (if focus {
        " --focus"@
    } else {
        " --no-focus"@
    }).is_suffix_of(line)
}

/// A line shows a number.
pub open spec fn shows_number(line: Seq<char>, head: Seq<char>, n: int) -> bool {
    exists|digits: Seq<char>| #[trigger]
        shows(line, head + digits) && config::digits_between(digits, 0, digits.len() as int)
            && checked::digits_value(digits, 0, digits.len() as int) == n
}

/// What stands for a pane in a dry run.
pub open spec fn is_handle_text(shown: Seq<char>, handle: HandleView) -> bool {
    exists|digits: Seq<char>|
        {
            &&& #[trigger] config::digits_between(digits, 0, digits.len() as int)
            &&& checked::digits_value(digits, 0, digits.len() as int) == match handle {
                HandleView::TabRoot(n) => n,
                HandleView::Split(n) => n,
            }
            &&& shown == (if handle is TabRoot {
                "TabRoot("@
            } else {
                "Split("@
            }) + digits + ")"@
        }
}

proof fn lemma_shows_at(before: Seq<char>, part: Seq<char>, after: Seq<char>)
    ensures
        shows(before + part + after, part),
{
}

proof fn lemma_shows_in_longer(
    line: Seq<char>,
    part: Seq<char>,
    before: Seq<char>,
    after: Seq<char>,
)
    requires
        shows(line, part),
    ensures
        shows(before + line + after, part),
{
    let (a, b) = choose|a: Seq<char>, b: Seq<char>| line == #[trigger] (a + part + b);
    assert(before + line + after =~= (before + a) + part + (b + after));
}

proof fn lemma_shows_word(before: Seq<char>, head: Seq<char>, value: Seq<char>, after: Seq<char>)
    ensures
        shows_word(before + head + shell::quoted_text(value) + after, head, value),
{
    let word = shell::quoted_text(value);
    shell::law_shell_reads_back_what_was_quoted(value);
    assert(before + head + word + after =~= before + (head + word) + after);
    lemma_shows_at(before, head + word, after);
    assert(built::is_word_for(word, value));
}

proof fn lemma_env_flags(variables: Seq<(Seq<char>, Seq<char>)>)
    ensures
        shows_variables(render::env_flags(variables), variables),
    decreases variables.len(),
{
    if variables.len() > 0 {
        let front = variables.drop_last();
        let all = render::env_flags(variables);
        lemma_env_flags(front);
        assert forall|k: int| 0 <= k < variables.len() implies shows_word(
            all,
            " --env "@ + (#[trigger] variables[k]).0 + "="@,
            variables[k].1,
        ) by {
            let head = " --env "@ + variables[k].0 + "="@;
            if k < front.len() {
                assert(front[k] == variables[k]);
                let word = choose|word: Seq<char>| #[trigger]
                    built::is_word_for(word, variables[k].1) && shows(
                        render::env_flags(front),
                        head + word,
                    );
                lemma_shows_in_longer(
                    render::env_flags(front),
                    head + word,
                    Seq::empty(),
                    render::env_flag(variables.last()),
                );
                assert(Seq::<char>::empty() + render::env_flags(front) + render::env_flag(
                    variables.last(),
                ) =~= all);
            } else {
                lemma_shows_word(
                    render::env_flags(front),
                    head,
                    variables[k].1,
                    Seq::empty(),
                );
                assert(render::env_flags(front) + head + shell::quoted_text(variables[k].1)
                    + Seq::<char>::empty() =~= all);
            }
        }
    }
}

proof fn lemma_shows_variables(
    before: Seq<char>,
    variables: Seq<(Seq<char>, Seq<char>)>,
    after: Seq<char>,
)
    ensures
        shows_variables(before + render::env_flags(variables) + after, variables),
{
    lemma_env_flags(variables);
    let flags = render::env_flags(variables);
    assert forall|k: int| 0 <= k < variables.len() implies shows_word(
        before + flags + after,
        " --env "@ + (#[trigger] variables[k]).0 + "="@,
        variables[k].1,
    ) by {
        let head = " --env "@ + variables[k].0 + "="@;
        let word = choose|word: Seq<char>| #[trigger]
            built::is_word_for(word, variables[k].1) && shows(flags, head + word);
        lemma_shows_in_longer(flags, head + word, before, after);
    }
}

proof fn lemma_handle_text(handle: HandleView)
    requires
        match handle {
            HandleView::TabRoot(n) => n >= 0,
            HandleView::Split(n) => n >= 0,
        },
    ensures
        is_handle_text(render::handle_text(handle), handle),
{
    let n: int = match handle {
        HandleView::TabRoot(n) => n,
        HandleView::Split(n) => n,
    };
    law_numbers_read_back(n as nat);
    let digits = text::decimal_text(n as nat);
    assert(config::digits_between(digits, 0, digits.len() as int));
}

/// A dry run shows a workspace with its name, where it starts, its variables
/// and who gets focus.
#[verifier::spinoff_prover]
#[verifier::rlimit(60)]
pub proof fn law_a_dry_run_shows_workspaces(opts: backend::WorkspaceOptsView)
    ensures
        ({
            let line = render::rendered_op(BackendOpView::CreateWorkspace(opts));
            &&& "workspace create"@.is_prefix_of(line)
            &&& shows_word(line, " --label "@, opts.label)
            &&& shows_cwd(line, opts.cwd)
            &&& shows_variables(line, opts.env)
            &&& shows_focus(line, opts.focus)
        }),
{
    reveal_strlit("workspace create");
    reveal_strlit(" --label ");
    reveal_strlit("workspace create --label ");
    let line = render::rendered_op(BackendOpView::CreateWorkspace(opts));
    let kind = "workspace create"@;
    let label = shell::quoted_text(opts.label);
    let cwd = render::cwd_flag(opts.cwd);
    let env = render::env_flags(opts.env);
    let focus = render::focus_flag(opts.focus);
    assert("workspace create --label "@ =~= kind + " --label "@);
    lemma_shows_word(kind, " --label "@, opts.label, cwd + env + focus);
    assert(line =~= kind + " --label "@ + label + (cwd + env + focus));
    lemma_shows_at(kind + " --label "@ + label, cwd, env + focus);
    assert(line =~= kind + " --label "@ + label + cwd + (env + focus));
    lemma_shows_variables(kind + " --label "@ + label + cwd, opts.env, focus);
    assert(line =~= kind + " --label "@ + label + cwd + env + focus);
    assert(line.skip(line.len() - focus.len()) =~= focus);
}

/// A dry run shows a tab with its place, its name, where it starts and who gets
/// focus, and the name that the first tab gets.
#[verifier::spinoff_prover]
#[verifier::rlimit(60)]
pub proof fn law_a_dry_run_shows_tabs(index: nat, opts: backend::TabOptsView, label: Seq<char>)
    ensures
        ({
            let line = render::rendered_op(BackendOpView::CreateTab { index: index as int, opts });
            &&& "tab create"@.is_prefix_of(line)
            &&& shows_number(line, " --index "@, index as int)
            &&& opts.label matches Some(label) ==> shows_word(line, " --label "@, label)
            &&& shows_cwd(line, opts.cwd)
            &&& shows_focus(line, opts.focus)
        }),
        ({
            let line = render::rendered_op(BackendOpView::RenameFirstTab { label });
            &&& "tab rename"@.is_prefix_of(line)
            &&& shows_word(line, " --label "@, label)
        }),
{
    reveal_strlit("tab create");
    reveal_strlit(" --index ");
    reveal_strlit("tab create --index ");
    reveal_strlit("tab rename");
    reveal_strlit(" --label ");
    reveal_strlit("tab rename --label ");
    let line = render::rendered_op(BackendOpView::CreateTab { index: index as int, opts });
    let kind = "tab create"@;
    let digits = text::decimal_text(index);
    law_numbers_read_back(index);
    let named: Seq<char> = match opts.label {
        Some(label) => " --label "@ + shell::quoted_text(label),
        None => Seq::empty(),
    };
    let cwd = render::cwd_flag(opts.cwd);
    let focus = render::focus_flag(opts.focus);
    assert("tab create --index "@ =~= kind + " --index "@);
    assert(line =~= kind + (" --index "@ + digits) + (named + cwd + focus));
    lemma_shows_at(kind, " --index "@ + digits, named + cwd + focus);
    assert(shows(line, " --index "@ + digits));
    let front = kind + " --index "@ + digits;
    if opts.label is Some {
        lemma_shows_word(front, " --label "@, opts.label->0, cwd + focus);
        assert(line =~= front + " --label "@ + shell::quoted_text(opts.label->0) + (cwd + focus));
    }
    assert(line =~= (front + named) + cwd + focus);
    lemma_shows_at(front + named, cwd, focus);
    assert(line.skip(line.len() - focus.len()) =~= focus);
    let renamed = render::rendered_op(BackendOpView::RenameFirstTab { label });
    assert("tab rename --label "@ =~= "tab rename"@ + " --label "@);
    lemma_shows_word("tab rename"@, " --label "@, label, Seq::empty());
    assert(renamed =~= "tab rename"@ + " --label "@ + shell::quoted_text(label)
        + Seq::<char>::empty());
}

/// A dry run shows a split with the panes, the side, how much the new pane gets,
/// where it starts, its variables and who gets focus.
#[verifier::spinoff_prover]
#[verifier::rlimit(60)]
pub proof fn law_a_dry_run_shows_splits(
    from: HandleView,
    into: HandleView,
    opts: backend::SplitOptsView,
)
    requires
        match from {
            HandleView::TabRoot(n) => n >= 0,
            HandleView::Split(n) => n >= 0,
        },
        match into {
            HandleView::TabRoot(n) => n >= 0,
            HandleView::Split(n) => n >= 0,
        },
    ensures
        ({
            let line = render::rendered_op(BackendOpView::SplitPane { from, into, opts });
            &&& exists|a: Seq<char>, b: Seq<char>|
                {
                    &&& #[trigger] is_handle_text(a, from)
                    &&& #[trigger] is_handle_text(b, into)
                    &&& ("pane split "@ + a + " -> "@ + b).is_prefix_of(line)
                }
            &&& shows(
                line,
                " --direction "@ + match opts.direction {
                    SplitDirection::Right => "right"@,
                    SplitDirection::Down => "down"@,
                    SplitDirection::Auto => "auto"@,
                },
            )
            &&& opts.ratio matches Some(ratio) ==> shows(line, " --ratio "@ + ratio)
            &&& shows_cwd(line, opts.cwd)
            &&& shows_variables(line, opts.env)
            &&& shows_focus(line, opts.focus)
        }),
{
    let line = render::rendered_op(BackendOpView::SplitPane { from, into, opts });
    let a = render::handle_text(from);
    let b = render::handle_text(into);
    lemma_handle_text(from);
    lemma_handle_text(into);
    let head = "pane split "@ + a + " -> "@ + b;
    let side = render::direction_text(opts.direction);
    let ratio: Seq<char> = match opts.ratio {
        Some(ratio) => " --ratio "@ + ratio,
        None => Seq::empty(),
    };
    let cwd = render::cwd_flag(opts.cwd);
    let env = render::env_flags(opts.env);
    let focus = render::focus_flag(opts.focus);
    assert(line =~= head + (" --direction "@ + side) + (ratio + cwd + env + focus));
    lemma_shows_at(head, " --direction "@ + side, ratio + cwd + env + focus);
    assert(head.is_prefix_of(line));
    let front = head + (" --direction "@ + side);
    lemma_shows_at(front, ratio, cwd + env + focus);
    assert(line =~= front + ratio + (cwd + env + focus));
    lemma_shows_at(front + ratio, cwd, env + focus);
    assert(line =~= (front + ratio) + cwd + (env + focus));
    lemma_shows_variables(front + ratio + cwd, opts.env, focus);
    assert(line =~= front + ratio + cwd + env + focus);
    assert(line.skip(line.len() - focus.len()) =~= focus);
}

/// A dry run shows what is typed into a pane and what is waited for in it.
pub proof fn law_a_dry_run_shows_what_runs(
    pane: HandleView,
    command: Seq<char>,
    wait: config::WaitForView,
)
    requires
        match pane {
            HandleView::TabRoot(n) => n >= 0,
            HandleView::Split(n) => n >= 0,
        },
    ensures
        exists|a: Seq<char>| #[trigger]
            is_handle_text(a, pane) && render::rendered_op(BackendOpView::Run { pane, command })
                == "pane run "@ + a + " "@ + command,
        ({
            let line = render::rendered_op(BackendOpView::WaitOutput { pane, wait });
            &&& exists|a: Seq<char>| #[trigger]
                is_handle_text(a, pane) && ("wait output "@ + a).is_prefix_of(line)
            &&& shows_word(line, " --match "@, wait.pattern)
            &&& wait.timeout_ms matches Some(ms) ==> shows_number(line, " --timeout "@, ms as int)
        }),
{
    let a = render::handle_text(pane);
    lemma_handle_text(pane);
    let line = render::rendered_op(BackendOpView::WaitOutput { pane, wait });
    let head = "wait output "@ + a;
    let timeout: Seq<char> = match wait.timeout_ms {
        Some(ms) => " --timeout "@ + text::decimal_text(ms as nat),
        None => Seq::empty(),
    };
    lemma_shows_word(head, " --match "@, wait.pattern, timeout);
    assert(line =~= head + " --match "@ + shell::quoted_text(wait.pattern) + timeout);
    assert(head.is_prefix_of(line));
    if wait.timeout_ms is Some {
        let ms = wait.timeout_ms->0;
        law_numbers_read_back(ms as nat);
        let digits = text::decimal_text(ms as nat);
        lemma_shows_at(
            head + " --match "@ + shell::quoted_text(wait.pattern),
            timeout,
            Seq::empty(),
        );
        assert(line =~= head + " --match "@ + shell::quoted_text(wait.pattern) + timeout
            + Seq::<char>::empty());
        assert(shows(line, " --timeout "@ + digits));
    }
}

} // verus!
