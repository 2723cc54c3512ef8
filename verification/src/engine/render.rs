//! Plans in words.

use vstd::prelude::*;

use crate::config::SplitDirection;
use crate::engine::{BackendOp, BackendOpView, HandleView, PaneHandle};
use crate::env::EnvMap;
use crate::shell;
use crate::shell::shell_quote;
use crate::text;
use crate::text::decimal;

verus! {

/// A handle in words.
pub open spec fn handle_text(handle: HandleView) -> Seq<char> {
    match handle {
        HandleView::TabRoot(n) => "TabRoot("@ + text::decimal_text(n as nat) + ")"@,
        HandleView::Split(n) => "Split("@ + text::decimal_text(n as nat) + ")"@,
    }
}

/// A direction in words.
pub open spec fn direction_text(direction: SplitDirection) -> Seq<char> {
    match direction {
        SplitDirection::Right => "right"@,
        SplitDirection::Down => "down"@,
        SplitDirection::Auto => "auto"@,
    }
}

/// The flag for a directory, if there is one.
pub open spec fn cwd_flag(cwd: Option<Seq<char>>) -> Seq<char> {
    match cwd {
        Some(cwd) => " --cwd "@ + cwd,
        None => Seq::empty(),
    }
}

/// The flag for one variable.
pub open spec fn env_flag(entry: (Seq<char>, Seq<char>)) -> Seq<char> {
    " --env "@ + entry.0 + "="@ + shell::quoted_text(entry.1)
}

/// The flags for all variables, in the order of their names.
pub open spec fn env_flags(variables: Seq<(Seq<char>, Seq<char>)>) -> Seq<char>
    decreases variables.len(),
{
    if variables.len() == 0 {
        Seq::empty()
    } else {
        env_flags(variables.drop_last()) + env_flag(variables.last())
    }
}

/// The flag that says who gets focus.
pub open spec fn focus_flag(focus: bool) -> Seq<char> {
    if focus {
        " --focus"@
    } else {
        " --no-focus"@
    }
}

/// An operation as one line of a dry run.
pub open spec fn rendered_op(op: BackendOpView) -> Seq<char> {
    match op {
        BackendOpView::CreateWorkspace(opts) => "workspace create --label "@ + shell::quoted_text(
            opts.label,
        ) + cwd_flag(opts.cwd) + env_flags(opts.env) + focus_flag(opts.focus),
        BackendOpView::RenameFirstTab { label } => "tab rename --label "@ + shell::quoted_text(
            label,
        ),
        BackendOpView::CreateTab { index, opts } => {
            let label = match opts.label {
                Some(label) => " --label "@ + shell::quoted_text(label),
                None => Seq::empty(),
            };
            "tab create --index "@ + text::decimal_text(index as nat) + label + cwd_flag(opts.cwd)
                + focus_flag(opts.focus)
        },
        BackendOpView::SplitPane { from, into, opts } => {
            let ratio = match opts.ratio {
                Some(ratio) => " --ratio "@ + ratio,
                None => Seq::empty(),
            };
            "pane split "@ + handle_text(from) + " -> "@ + handle_text(into) + " --direction "@
                + direction_text(opts.direction) + ratio + cwd_flag(opts.cwd) + env_flags(opts.env)
                + focus_flag(opts.focus)
        },
        BackendOpView::Run { pane, command } => "pane run "@ + handle_text(pane) + " "@ + command,
        BackendOpView::WaitOutput { pane, wait } => {
            let timeout = match wait.timeout_ms {
                Some(ms) => " --timeout "@ + text::decimal_text(ms as nat),
                None => Seq::empty(),
            };
            "wait output "@ + handle_text(pane) + " --match "@ + shell::quoted_text(wait.pattern)
                + timeout
        },
    }
}

fn append_handle(line: &mut String, handle: PaneHandle)
    ensures
        final(line)@ == old(line)@ + handle_text(handle.deep_view()),
{
    let ghost earlier = line@;
    match handle {
        PaneHandle::TabRoot(n) => {
            line.append("TabRoot(");
            line.append(decimal(n as u64).as_str());
        },
        PaneHandle::Split(n) => {
            line.append("Split(");
            line.append(decimal(n as u64).as_str());
        },
    }
    line.append(")");
    assert(line@ =~= earlier + handle_text(handle.deep_view()));
}

fn append_cwd_flag(line: &mut String, cwd: &Option<String>)
    ensures
        final(line)@ == old(line)@ + cwd_flag(cwd.deep_view()),
{
    let ghost earlier = line@;
    if let Some(cwd) = cwd {
        line.append(" --cwd ");
        line.append(cwd.as_str());
    }
    assert(line@ =~= earlier + cwd_flag(cwd.deep_view()));
}

fn append_env_flags(line: &mut String, variables: &EnvMap)
    ensures
        final(line)@ == old(line)@ + env_flags(variables.deep_view()),
{
    let ghost earlier = line@;
    let ghost all = variables.deep_view();
    let mut i: usize = 0;
    assert(line@ =~= earlier + env_flags(all.take(0)));
    while i < variables.len()
        invariant
            i <= all.len(),
            all == variables.deep_view(),
            line@ == earlier + env_flags(all.take(i as int)),
        decreases all.len() - i,
    {
        line.append(" --env ");
        line.append(variables.name_at(i));
        line.append("=");
        line.append(shell_quote(variables.value_at(i)).as_str());
        proof {
            assert(all.take(i + 1).drop_last() == all.take(i as int));
            assert(all.take(i + 1).last() == all[i as int]);
        }
        i = i + 1;
        assert(line@ =~= earlier + env_flags(all.take(i as int)));
    }
    assert(all.take(i as int) == all);
}

fn append_focus_flag(line: &mut String, focus: bool)
    ensures
        final(line)@ == old(line)@ + focus_flag(focus),
{
    if focus {
        line.append(" --focus");
    } else {
        line.append(" --no-focus");
    }
}

fn direction_str(direction: SplitDirection) -> (name: &'static str)
    ensures
        name@ == direction_text(direction),
{
    match direction {
        SplitDirection::Right => "right",
        SplitDirection::Down => "down",
        SplitDirection::Auto => "auto",
    }
}

/// `op` as one line of a dry run.
#[must_use]
pub fn render_op(op: &BackendOp) -> (line: String)
    ensures
        line@ == rendered_op(op.deep_view()),
{
    let mut line: String = String::new();
    match op {
        BackendOp::CreateWorkspace(opts) => {
            line.append("workspace create --label ");
            line.append(shell_quote(opts.label.as_str()).as_str());
            append_cwd_flag(&mut line, &opts.cwd);
            append_env_flags(&mut line, &opts.env);
            append_focus_flag(&mut line, opts.focus);
        },
        BackendOp::RenameFirstTab { label } => {
            line.append("tab rename --label ");
            line.append(shell_quote(label.as_str()).as_str());
        },
        BackendOp::CreateTab { index, opts } => {
            line.append("tab create --index ");
            line.append(decimal(*index as u64).as_str());
            if let Some(label) = &opts.label {
                line.append(" --label ");
                line.append(shell_quote(label.as_str()).as_str());
            }
            append_cwd_flag(&mut line, &opts.cwd);
            append_focus_flag(&mut line, opts.focus);
        },
        BackendOp::SplitPane { from, into, opts } => {
            line.append("pane split ");
            append_handle(&mut line, *from);
            line.append(" -> ");
            append_handle(&mut line, *into);
            line.append(" --direction ");
            line.append(direction_str(opts.direction));
            if let Some(ratio) = &opts.ratio {
                line.append(" --ratio ");
                line.append(ratio.decimal());
            }
            append_cwd_flag(&mut line, &opts.cwd);
            append_env_flags(&mut line, &opts.env);
            append_focus_flag(&mut line, opts.focus);
        },
        BackendOp::Run { pane, command } => {
            line.append("pane run ");
            append_handle(&mut line, *pane);
            line.append(" ");
            line.append(command.as_str());
        },
        BackendOp::WaitOutput { pane, wait } => {
            line.append("wait output ");
            append_handle(&mut line, *pane);
            line.append(" --match ");
            line.append(shell_quote(wait.pattern.as_str()).as_str());
            if let Some(timeout) = wait.timeout_ms {
                line.append(" --timeout ");
                line.append(decimal(timeout).as_str());
            }
        },
    }
    assert(line@ =~= rendered_op(op.deep_view()));
    line
}

} // verus!
