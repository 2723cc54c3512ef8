//! What is shown of things: every part of a value in its mathematical value,
//! and every reason in the words for it.

use vstd::prelude::*;

use crate::backend;
use crate::backend::cli;
use crate::backend::{
    BackendError, SplitOpts, TabCreated, TabOpts, TabSummary, WorkspaceCreated, WorkspaceOpts,
    WorkspaceSummary,
};
use crate::config;
use crate::config::{ConfigError, Include, Pane, Tab, WaitFor, Workspace};
use crate::engine::{BackendOp, BackendOpView, PaneHandle};
use crate::laws::checked;
use crate::laws::commands;
use crate::text;
use crate::validate;
use crate::validate::{Severity, ValidationFinding};

verus! {

/// The value of a text that may be left out holds its characters.
pub open spec fn shows_text(shown: Option<Seq<char>>, held: Option<String>) -> bool {
    match held {
        Some(text) => shown == Some(text@),
        None => shown is None,
    }
}

/// The value of a pane holds everything that is said of the pane.
pub proof fn law_panes_are_shown_in_full(pane: Pane)
    ensures
        shows_text(pane.deep_view().id, pane.id),
        shows_text(pane.deep_view().command, pane.command),
        shows_text(pane.deep_view().cwd, pane.cwd),
        shows_text(pane.deep_view().from, pane.from),
        pane.deep_view().env == pane.env.deep_view(),
        pane.deep_view().split == pane.split,
        pane.deep_view().focus == pane.focus,
        match pane.ratio {
            Some(ratio) => pane.deep_view().ratio == Some(ratio.deep_view()),
            None => pane.deep_view().ratio is None,
        },
        match pane.wait_for {
            Some(wait) => pane.deep_view().wait_for matches Some(shown) && shown.pattern
                == wait.pattern@ && shown.timeout_ms == wait.timeout_ms,
            None => pane.deep_view().wait_for is None,
        },
{
}

/// The values of a tab and of a workspace hold everything that is said of
/// them, with their panes and tabs in order.
pub proof fn law_tabs_and_workspaces_are_shown_in_full(tab: Tab, ws: Workspace)
    ensures
        shows_text(tab.deep_view().label, tab.label),
        shows_text(tab.deep_view().cwd, tab.cwd),
        tab.deep_view().panes.len() == tab.panes@.len(),
        forall|p: int|
            0 <= p < tab.panes@.len() ==> #[trigger] tab.deep_view().panes[p]
                == tab.panes@[p].deep_view(),
        ws.deep_view().name == ws.name@,
        shows_text(ws.deep_view().root, ws.root),
        ws.deep_view().env == ws.env.deep_view(),
        ws.deep_view().focus == ws.focus,
        ws.deep_view().tabs.len() == ws.tabs@.len(),
        forall|t: int|
            0 <= t < ws.tabs@.len() ==> #[trigger] ws.deep_view().tabs[t]
                == ws.tabs@[t].deep_view(),
{
}

/// The values of what is asked of herdr hold everything that is asked.
pub proof fn law_requests_are_shown_in_full(
    ws: WorkspaceOpts,
    tab: TabOpts,
    split: SplitOpts,
    wait: WaitFor,
    entry: Include,
)
    ensures
        ws.deep_view().label == ws.label@,
        shows_text(ws.deep_view().cwd, ws.cwd),
        ws.deep_view().env == ws.env.deep_view(),
        ws.deep_view().focus == ws.focus,
        shows_text(tab.deep_view().label, tab.label),
        shows_text(tab.deep_view().cwd, tab.cwd),
        tab.deep_view().focus == tab.focus,
        split.deep_view().direction == split.direction,
        match split.ratio {
            Some(ratio) => split.deep_view().ratio == Some(ratio.deep_view()),
            None => split.deep_view().ratio is None,
        },
        shows_text(split.deep_view().cwd, split.cwd),
        split.deep_view().env == split.env.deep_view(),
        split.deep_view().focus == split.focus,
        wait.deep_view().pattern == wait.pattern@,
        wait.deep_view().timeout_ms == wait.timeout_ms,
        entry.deep_view().target == entry.target@,
        entry.deep_view().optional == entry.optional,
{
}

/// The value of a step of a plan holds everything the step does, and names its
/// panes so that different panes have different names.
pub proof fn law_steps_are_shown_in_full(op: BackendOp, a: PaneHandle, b: PaneHandle)
    ensures
        (a.deep_view() == b.deep_view()) == (a == b),
        match (op, op.deep_view()) {
            (BackendOp::CreateWorkspace(opts), BackendOpView::CreateWorkspace(shown)) => shown
                == opts.deep_view(),
            (
                BackendOp::RenameFirstTab { label },
                BackendOpView::RenameFirstTab { label: shown },
            ) => shown == label@,
            (
                BackendOp::CreateTab { index, opts },
                BackendOpView::CreateTab { index: number, opts: shown },
            ) => number == index && shown == opts.deep_view(),
            (
                BackendOp::SplitPane { from, into, opts },
                BackendOpView::SplitPane { from: old_pane, into: new_pane, opts: shown },
            ) => old_pane == from.deep_view() && new_pane == into.deep_view() && shown
                == opts.deep_view(),
            (
                BackendOp::Run { pane, command },
                BackendOpView::Run { pane: shown, command: typed },
            ) => shown == pane.deep_view() && typed == command@,
            (
                BackendOp::WaitOutput { pane, wait },
                BackendOpView::WaitOutput { pane: shown, wait: awaited },
            ) => shown == pane.deep_view() && awaited == wait.deep_view(),
            _ => false,
        },
{
}

/// The values of what herdr answers hold every id and every label of it.
pub proof fn law_answers_are_shown_in_full(
    ws: WorkspaceCreated,
    tab: TabCreated,
    listed: WorkspaceSummary,
    inside: TabSummary,
)
    ensures
        ws.deep_view().workspace_id == ws.workspace_id@,
        ws.deep_view().tab_id == ws.tab_id@,
        ws.deep_view().root_pane_id == ws.root_pane_id@,
        tab.deep_view().tab_id == tab.tab_id@,
        tab.deep_view().root_pane_id == tab.root_pane_id@,
        listed.deep_view().workspace_id == listed.workspace_id@,
        shows_text(listed.deep_view().label, listed.label),
        inside.deep_view().tab_id == inside.tab_id@,
        shows_text(inside.deep_view().label, inside.label),
{
}

/// `part` stands at the end of `all`.
pub open spec fn ends_in(all: Seq<char>, part: Seq<char>) -> bool {
    part.len() <= all.len() && all.skip(all.len() - part.len()) == part
}

/// A finding is shown as its message behind its severity, in capitals and in
/// brackets: nothing of the message is lost, and what stands in front of it
/// tells an error from a warning.
pub proof fn law_findings_are_shown_by_severity(finding: ValidationFinding)
    ensures
        ({
            let shown = validate::finding_text(finding.deep_view());
            let front = shown.take(shown.len() - finding.message@.len());
            &&& ends_in(shown, finding.message@)
            &&& front == match finding.severity {
                Severity::Error => seq!['[', 'E', 'R', 'R', 'O', 'R', ']', ' '],
                Severity::Warning => seq!['[', 'W', 'A', 'R', 'N', 'I', 'N', 'G', ']', ' '],
            }
        }),
{
    reveal_strlit("[ERROR] ");
    reveal_strlit("[WARNING] ");
    let shown = validate::finding_text(finding.deep_view());
    let front = shown.take(shown.len() - finding.message@.len());
    assert(shown.skip(shown.len() - finding.message@.len()) =~= finding.message@);
    match finding.severity {
        Severity::Error => {
            assert(front =~= "[ERROR] "@);
            assert("[ERROR] "@ =~= seq!['[', 'E', 'R', 'R', 'O', 'R', ']', ' ']);
        },
        Severity::Warning => {
            assert(front =~= "[WARNING] "@);
            assert("[WARNING] "@ =~= seq!['[', 'W', 'A', 'R', 'N', 'I', 'N', 'G', ']', ' ']);
        },
    }
}

/// `part` stands somewhere in `all`.
pub open spec fn holds_text(all: Seq<char>, part: Seq<char>) -> bool {
    exists|at: int|
        0 <= at && at + part.len() <= all.len() && #[trigger] all.subrange(
            at,
            at + part.len(),
        ) == part
}

proof fn lemma_holds_middle(front: Seq<char>, part: Seq<char>, back: Seq<char>)
    ensures
        holds_text(front + part + back, part),
{
    let all = front + part + back;
    let at = front.len() as int;
    assert(all.subrange(at, at + part.len()) =~= part);
}

/// The words for an error of herdr end in what herdr said, and those for a
/// command that failed hold its exit code too. The words for a file that could
/// not be read hold its path and end in the reason.
pub proof fn law_errors_give_their_reasons(e: BackendError, c: ConfigError)
    ensures
        match e {
            BackendError::Herdr { message } => ends_in(e.text(), message@),
            BackendError::CommandFailed { code, stderr } => {
                &&& ends_in(e.text(), stderr@)
                &&& code matches Some(n) ==> holds_text(
                    e.text(),
                    text::signed_decimal_text(n as int),
                )
            },
        },
        match c {
            ConfigError::Io { path, message } => ends_in(c.text(), message@) && holds_text(
                c.text(),
                path@,
            ),
            ConfigError::NotFound => c.text().len() > 0,
        },
{
    match e {
        BackendError::Herdr { message } => {
            assert(e.text().skip(e.text().len() - message@.len()) =~= message@);
        },
        BackendError::CommandFailed { code, stderr } => {
            assert(e.text().skip(e.text().len() - stderr@.len()) =~= stderr@);
            if code is Some {
                let digits = text::signed_decimal_text(code->0 as int);
                let front = "herdr command failed (exit code "@ + "Some("@;
                let back = ")"@ + "): "@ + stderr@;
                lemma_holds_middle(front, digits, back);
                assert(e.text() =~= front + digits + back);
            }
        },
    }
    match c {
        ConfigError::Io { path, message } => {
            assert(c.text().skip(c.text().len() - message@.len()) =~= message@);
            let front = "failed to read config file "@;
            let back = ": "@ + message@;
            lemma_holds_middle(front, path@, back);
            assert(c.text() =~= front + path@ + back);
        },
        ConfigError::NotFound => {
            reveal_strlit("no config file found");
        },
    }
}

/// A whole number reads back from its text: a minus sign where it is below
/// zero and only there, and digits that have its size.
pub proof fn law_whole_numbers_read_back(n: int)
    ensures
        ({
            let shown = text::signed_decimal_text(n);
            let start = config::digits_start(shown);
            let size = checked::digits_value(
                shown.skip(start),
                0,
                shown.skip(start).len() as int,
            ) as int;
            &&& start < shown.len()
            &&& config::digits_between(shown.skip(start), 0, shown.skip(start).len() as int)
            &&& (start == 1) == (n < 0)
            &&& n == if start == 1 {
                -size
            } else {
                size
            }
        }),
{
    reveal_strlit("-");
    let shown = text::signed_decimal_text(n);
    if n < 0 {
        commands::law_numbers_read_back((-n) as nat);
        assert(shown[0] == '-');
        assert(shown.skip(1) =~= text::decimal_text((-n) as nat));
    } else {
        commands::law_numbers_read_back(n as nat);
        assert(config::digit(shown[0]));
        assert(shown.skip(0) =~= text::decimal_text(n as nat));
    }
}

/// The text of every whole number is that of a ratio, and stays one with a
/// fraction behind it where that has digits and does not end in zero, and only
/// there.
pub proof fn law_numbers_are_decimal_texts(n: int, fraction: Seq<char>)
    requires
        config::digits_between(fraction, 0, fraction.len() as int),
    ensures
        config::decimal_form(text::signed_decimal_text(n)),
        config::decimal_form(text::signed_decimal_text(n).push('.') + fraction) == (fraction.len()
            > 0 && fraction.last() != '0'),
{
    reveal_strlit("-");
    reveal_strlit("NaN");
    reveal_strlit("inf");
    reveal_strlit("-inf");
    law_whole_numbers_read_back(n);
    let shown = text::signed_decimal_text(n);
    let start = config::digits_start(shown);
    let digits = shown.skip(start);
    let size: nat = if n < 0 {
        (-n) as nat
    } else {
        n as nat
    };
    commands::law_numbers_read_back(size);
    assert(digits =~= text::decimal_text(size));
    assert forall|i: int| start <= i < shown.len() implies config::digit(#[trigger] shown[i]) by {
        assert(digits[i - start] == shown[i]);
    }
    assert(shown[start] == digits[0]);
    assert(config::decimal_up_to(shown, start, shown.len() as int));
    let point = shown.len() as int;
    let all = shown.push('.') + fraction;
    assert(all.take(point) =~= shown);
    assert(all[0] == shown[0]);
    assert(all[point] == '.');
    assert(config::digits_start(all) == start);
    assert forall|i: int| start <= i < point implies config::digit(#[trigger] all[i]) by {
        assert(all[i] == shown[i]);
    }
    assert(all[start] == shown[start]);
    assert forall|i: int| point + 1 <= i < all.len() implies config::digit(#[trigger] all[i]) by {
        assert(all[i] == fraction[i - point - 1]);
    }
    assert(fraction.len() > 0 ==> all.last() == fraction.last());
    if fraction.len() > 0 && fraction.last() != '0' {
        assert(config::decimal_up_to(all, start, point));
    }
    assert(config::digit(all[start]));
    assert("NaN"@[0] == 'N' && "inf"@[0] == 'i' && "-inf"@[0] == '-' && "-inf"@[1] == 'i');
    assert forall|other: int| #[trigger] config::decimal_up_to(all, start, other) implies other
        == point by {
        if other < point {
            assert(config::digit(all[other]));
        } else if other > point {
            assert(config::digit(all[point]));
        }
    }
}

/// A request that could be written goes out as it was written, with one
/// newline behind it; the words for one that could not end in the reason.
pub proof fn law_requests_end_in_a_newline(encoded: Result<Seq<u8>, Seq<char>>)
    ensures
        match (encoded, cli::focus_request_result(encoded)) {
            (Ok(bytes), Ok(sent)) => {
                &&& sent.len() == bytes.len() + 1
                &&& sent.drop_last() == bytes
                &&& sent.last() as int == '\n' as int
            },
            (Err(reason), Err(backend::BackendErrorView::Herdr { message })) => ends_in(
                message,
                reason,
            ),
            _ => false,
        },
{
    match encoded {
        Ok(bytes) => {
            assert(bytes.push(10).drop_last() =~= bytes);
        },
        Err(reason) => {
            let message = "failed to serialize JSON-RPC request: "@ + reason;
            assert(message.skip(message.len() - reason.len()) =~= reason);
        },
    }
}

/// Names are put in the order of a dictionary: by the first character in which
/// they differ, and a name in front of the longer ones that start with it.
pub proof fn law_names_are_in_dictionary_order(a: Seq<char>, b: Seq<char>, at: int)
    requires
        0 <= at <= a.len(),
        at <= b.len(),
        a.take(at) == b.take(at),
    ensures
        at < a.len() && at < b.len() && a[at] != b[at] ==> (text::before(a, b) == ((a[at] as int)
            < (b[at] as int))),
        at == a.len() ==> (text::before(a, b) == (a.len() < b.len())),
{
    lemma_before_from(a, b, at, 0);
}

proof fn lemma_before_from(a: Seq<char>, b: Seq<char>, at: int, i: int)
    requires
        0 <= i <= at <= a.len(),
        at <= b.len(),
        a.take(at) == b.take(at),
    ensures
        text::before_from(a, b, i) == text::before_from(a, b, at),
    decreases at - i,
{
    if i < at {
        assert(a.take(at)[i] == a[i] && b.take(at)[i] == b[i]);
        lemma_before_from(a, b, at, i + 1);
    }
}

} // verus!
