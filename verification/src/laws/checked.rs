//! Which layouts are accepted.

use vstd::prelude::*;

use crate::config;
use crate::config::{PaneView, TabView, WorkspaceView};
use crate::text;
use crate::validate;
use crate::validate::{FindingView, Severity};

verus! {

/// One of the findings has this severity.
#[verifier::opaque]
pub open spec fn found_with(findings: Seq<FindingView>, severity: Severity) -> bool {
    exists|i: int| 0 <= i < findings.len() && (#[trigger] findings[i]).severity == severity
}

proof fn lemma_has_in_either(a: Seq<FindingView>, b: Seq<FindingView>)
    ensures
        forall|severity: Severity| #[trigger]
            found_with(a + b, severity) == (found_with(a, severity) || found_with(b, severity)),
{
    reveal(found_with);
    assert forall|severity: Severity| #[trigger]
        found_with(a + b, severity) == (found_with(a, severity) || found_with(b, severity)) by {
        if found_with(a, severity) {
            let i = choose|i: int| 0 <= i < a.len() && (#[trigger] a[i]).severity == severity;
            assert((a + b)[i].severity == severity);
        }
        if found_with(b, severity) {
            let i = choose|i: int| 0 <= i < b.len() && (#[trigger] b[i]).severity == severity;
            assert((a + b)[a.len() + i].severity == severity);
        }
        if found_with(a + b, severity) {
            let i = choose|i: int|
                0 <= i < (a + b).len() && (#[trigger] (a + b)[i]).severity == severity;
            if i < a.len() {
                assert(a[i].severity == severity);
            } else {
                assert(b[i - a.len()].severity == severity);
            }
        }
    }
}

proof fn lemma_has_one(finding: FindingView)
    ensures
        forall|severity: Severity| #[trigger]
            found_with(seq![finding], severity) == (finding.severity == severity),
{
    reveal(found_with);
    assert(seq![finding][0] == finding);
}

proof fn lemma_has_none()
    ensures
        forall|severity: Severity| !(#[trigger] found_with(Seq::<FindingView>::empty(), severity)),
{
    reveal(found_with);
}

/// The value of a digit.
pub open spec fn digit_value(c: char) -> nat {
    (c as int - 48) as nat
}

/// The value of the digits from `low` up to `high`.
pub open spec fn digits_value(digits: Seq<char>, low: int, high: int) -> nat
    decreases high - low,
{
    if high <= low {
        0
    } else {
        10 * digits_value(digits, low, high - 1) + digit_value(digits[high - 1])
    }
}

proof fn lemma_digits_value(digits: Seq<char>, low: int, high: int)
    requires
        0 <= low <= high <= digits.len(),
        config::digits_between(digits, low, high),
    ensures
        (digits_value(digits, low, high) == 0) == (forall|i: int|
            low <= i < high ==> #[trigger] digits[i] == '0'),
    decreases high - low,
{
    if low < high {
        lemma_digits_value(digits, low, high - 1);
        assert(config::digit(digits[high - 1]));
    }
}

/// A ratio is accepted where its value lies between zero and one: without a
/// minus sign, with nothing in front of the point and something behind it. An
/// infinite one is not; one that is no number is let through.
pub proof fn law_ratios_lie_between_zero_and_one(ratio: Seq<char>, point: int)
    ensures
        config::decimal_up_to(ratio, config::digits_start(ratio), point) ==> (
        !config::ratio_refused(ratio) == {
            &&& ratio[0] != '-'
            &&& digits_value(ratio, 0, point) == 0
            &&& digits_value(ratio, point + 1, ratio.len() as int) > 0
        }),
        config::ratio_refused("inf"@),
        config::ratio_refused("-inf"@),
        !config::ratio_refused("NaN"@),
{
    reveal_strlit("inf");
    reveal_strlit("-inf");
    reveal_strlit("NaN");
    assert("inf"@[0] == 'i' && "-inf"@[0] == '-' && "NaN"@[0] == 'N');
    if config::decimal_up_to(ratio, config::digits_start(ratio), point) {
        let start = config::digits_start(ratio);
        assert(config::digit(ratio[start]));
        assert(ratio != "NaN"@);
        if start == 0 {
            lemma_digits_value(ratio, 0, point);
            if point < ratio.len() {
                lemma_digits_value(ratio, point + 1, ratio.len() as int);
            }
            if digits_value(ratio, 0, point) == 0 {
                assert(ratio[0] == '0');
                assert(point == 1);
            }
            if config::proper_fraction(ratio) {
                assert(point == 1) by {
                    if point > 1 {
                        assert(config::digit(ratio[1]));
                    }
                }
                let i = choose|i: int| 2 <= i < ratio.len() && #[trigger] ratio[i] != '0';
                assert(ratio[i] != '0');
            } else if point == 1 && ratio[0] == '0' && point < ratio.len() {
                assert(ratio[1] == '.');
            }
        }
    }
}

/// Nothing is wrong with a pane's `from`: it is left out, or the pane is not the
/// first of its tab and names one in front of it by an id that is not empty.
pub open spec fn from_is_right(panes: Seq<PaneView>, p: int) -> bool {
    panes[p].from matches Some(from) ==> {
        &&& p > 0
        &&& from.len() > 0
        &&& exists|q: int| 0 <= q < p && (#[trigger] panes[q]).id == Some(from)
    }
}

/// Nothing is wrong with a pane's `id`: it is left out, or it is not empty and
/// that of no pane in front of it.
pub open spec fn id_is_right(panes: Seq<PaneView>, p: int) -> bool {
    panes[p].id matches Some(id) ==> {
        &&& id.len() > 0
        &&& forall|q: int| 0 <= q < p ==> (#[trigger] panes[q]).id != Some(id)
    }
}

/// Nothing is wrong with a pane by itself: its ratio can be had, and it waits
/// for nothing without a command.
pub open spec fn pane_is_right(pane: PaneView) -> bool {
    &&& pane.ratio matches Some(ratio) ==> !config::ratio_refused(ratio)
    &&& pane.wait_for is Some ==> pane.command is Some
}

/// Nothing is wrong with the panes of a tab.
pub open spec fn tab_is_right(tab: TabView) -> bool {
    forall|p: int|
        0 <= p < tab.panes.len() ==> {
            &&& pane_is_right(#[trigger] tab.panes[p])
            &&& from_is_right(tab.panes, p)
            &&& id_is_right(tab.panes, p)
        }
}

/// Nothing is wrong with the sources and ids of the first `n` panes.
spec fn sources_are_right(panes: Seq<PaneView>, n: int) -> bool {
    forall|p: int| 0 <= p < n ==> #[trigger] from_is_right(panes, p) && id_is_right(panes, p)
}

/// Nothing is wrong with the first `n` panes, each by itself.
spec fn panes_are_right(panes: Seq<PaneView>, n: int) -> bool {
    forall|p: int| 0 <= p < n ==> pane_is_right(#[trigger] panes[p])
}

/// Nothing is wrong with the first `n` tabs.
spec fn tabs_are_right(ws: WorkspaceView, n: int) -> bool {
    forall|t: int| 0 <= t < n ==> tab_is_right(#[trigger] ws.tabs[t])
}

/// One of the first `n` tabs has no panes.
spec fn tabs_are_odd(ws: WorkspaceView, n: int) -> bool {
    exists|t: int| 0 <= t < n && (#[trigger] ws.tabs[t]).panes.len() == 0
}

/// Nothing is wrong with the first `n` workspaces.
spec fn workspaces_are_right(file: Seq<WorkspaceView>, n: int) -> bool {
    forall|i: int| 0 <= i < n ==> #[trigger] workspace_is_right(file, i)
}

/// One of the first `n` workspaces has a tab without panes.
spec fn workspaces_are_odd(file: Seq<WorkspaceView>, n: int) -> bool {
    exists|i: int| 0 <= i < n && has_empty_tab(#[trigger] file[i])
}

/// Nothing is wrong with the name of workspace `i`.
spec fn name_is_right(file: Seq<WorkspaceView>, i: int) -> bool {
    &&& file[i].name.len() > 0
    &&& forall|j: int| 0 <= j < i ==> (#[trigger] file[j]).name != file[i].name
}

/// Nothing is wrong with workspace `i`: it has a name, which no workspace in
/// front of it has, and nothing is wrong with its tabs.
pub open spec fn workspace_is_right(file: Seq<WorkspaceView>, i: int) -> bool {
    &&& file[i].name.len() > 0
    &&& forall|j: int| 0 <= j < i ==> (#[trigger] file[j]).name != file[i].name
    &&& forall|t: int| 0 <= t < file[i].tabs.len() ==> tab_is_right(#[trigger] file[i].tabs[t])
}

/// Something is odd about a workspace: one of its tabs has no panes.
pub open spec fn has_empty_tab(ws: WorkspaceView) -> bool {
    exists|t: int| 0 <= t < ws.tabs.len() && (#[trigger] ws.tabs[t]).panes.len() == 0
}

/// Two workspaces ask for focus.
pub open spec fn two_ask_for_focus(file: Seq<WorkspaceView>) -> bool {
    exists|i: int, j: int|
        0 <= i < j < file.len() && (#[trigger] file[i]).focus && (#[trigger] file[j]).focus
}

proof fn lemma_source_severity(
    ws_name: Seq<char>,
    label: Seq<char>,
    panes: Seq<PaneView>,
    n: int,
)
    requires
        0 <= n <= panes.len(),
    ensures
        found_with(validate::source_findings(ws_name, label, panes, n), Severity::Error)
            == !sources_are_right(panes, n),
        !found_with(validate::source_findings(ws_name, label, panes, n), Severity::Warning),
    decreases n,
{
    lemma_has_none();
    if n > 0 {
        let p = n - 1;
        lemma_source_severity(ws_name, label, panes, p);
        let earlier = validate::source_findings(ws_name, label, panes, p);
        let from = validate::from_findings(ws_name, label, panes, p);
        let id = validate::id_findings(ws_name, label, panes, p);
        lemma_has_in_either(earlier, from);
        lemma_has_in_either(earlier + from, id);
        if from.len() > 0 {
            lemma_has_one(from[0]);
            assert(from =~= seq![from[0]]);
        } else {
            assert(from =~= Seq::empty());
        }
        if id.len() > 0 {
            lemma_has_one(id[0]);
            assert(id =~= seq![id[0]]);
        } else {
            assert(id =~= Seq::empty());
        }
        assert((from.len() == 0) == from_is_right(panes, p));
        assert((id.len() == 0) == id_is_right(panes, p));
        assert(sources_are_right(panes, n) == (sources_are_right(panes, p) && from_is_right(
            panes,
            p,
        ) && id_is_right(panes, p)));
    }
}

proof fn lemma_pane_severity(ws_name: Seq<char>, pane: PaneView)
    ensures
        found_with(validate::pane_findings(ws_name, pane), Severity::Error) == !pane_is_right(pane),
        !found_with(validate::pane_findings(ws_name, pane), Severity::Warning),
{
    reveal(found_with);
    lemma_has_none();
    let all = validate::pane_findings(ws_name, pane);
    assert forall|i: int| 0 <= i < all.len() implies (#[trigger] all[i]).severity
        == Severity::Error by {}
    assert((all.len() == 0) == pane_is_right(pane));
    if all.len() > 0 {
        assert(all[0].severity == Severity::Error);
    }
}

proof fn lemma_panes_severity(ws_name: Seq<char>, panes: Seq<PaneView>, n: int)
    requires
        0 <= n <= panes.len(),
    ensures
        found_with(validate::panes_findings(ws_name, panes, n), Severity::Error)
            == !panes_are_right(panes, n),
        !found_with(validate::panes_findings(ws_name, panes, n), Severity::Warning),
    decreases n,
{
    lemma_has_none();
    if n > 0 {
        lemma_panes_severity(ws_name, panes, n - 1);
        lemma_pane_severity(ws_name, panes[n - 1]);
        lemma_has_in_either(
            validate::panes_findings(ws_name, panes, n - 1),
            validate::pane_findings(ws_name, panes[n - 1]),
        );
        assert(panes_are_right(panes, n) == (panes_are_right(panes, n - 1) && pane_is_right(
            panes[n - 1],
        )));
    }
}

proof fn lemma_tab_severity(ws_name: Seq<char>, tab: TabView)
    ensures
        found_with(validate::tab_findings(ws_name, tab), Severity::Error) == !tab_is_right(tab),
        found_with(validate::tab_findings(ws_name, tab), Severity::Warning) == (tab.panes.len() == 0),
{
    lemma_has_none();
    let n = tab.panes.len() as int;
    let label = validate::label_text(tab);
    let sources = validate::source_findings(ws_name, label, tab.panes, n);
    let panes = validate::panes_findings(ws_name, tab.panes, n);
    lemma_source_severity(ws_name, label, tab.panes, n);
    lemma_panes_severity(ws_name, tab.panes, n);
    let empty: Seq<FindingView> = if n == 0 {
        seq![
            validate::warning_view(
                "tab '"@ + label + "' in workspace '"@ + ws_name + "' has no panes"@,
            ),
        ]
    } else {
        Seq::empty()
    };
    if n == 0 {
        lemma_has_one(empty[0]);
    }
    lemma_has_in_either(empty, sources);
    lemma_has_in_either(empty + sources, panes);
    assert(validate::tab_findings(ws_name, tab) == empty + sources + panes);
    if tab_is_right(tab) {
        assert forall|p: int| 0 <= p < n implies #[trigger] from_is_right(tab.panes, p)
            && id_is_right(tab.panes, p) by {
            assert(pane_is_right(tab.panes[p]));
        }
    }
    if sources_are_right(tab.panes, n) && panes_are_right(tab.panes, n) {
        assert forall|p: int| 0 <= p < n implies {
            &&& pane_is_right(#[trigger] tab.panes[p])
            &&& from_is_right(tab.panes, p)
            &&& id_is_right(tab.panes, p)
        } by {
            assert(from_is_right(tab.panes, p));
        }
    }
}

proof fn lemma_tabs_severity(ws: WorkspaceView, n: int)
    requires
        0 <= n <= ws.tabs.len(),
    ensures
        found_with(validate::tabs_findings(ws, n), Severity::Error) == !tabs_are_right(ws, n),
        found_with(validate::tabs_findings(ws, n), Severity::Warning) == tabs_are_odd(ws, n),
    decreases n,
{
    lemma_has_none();
    if n > 0 {
        let tab = ws.tabs[n - 1];
        lemma_tabs_severity(ws, n - 1);
        lemma_tab_severity(ws.name, tab);
        lemma_has_in_either(
            validate::tabs_findings(ws, n - 1),
            validate::tab_findings(ws.name, tab),
        );
        assert(tabs_are_right(ws, n) == (tabs_are_right(ws, n - 1) && tab_is_right(tab))) by {
            if tabs_are_right(ws, n) {
                assert(tab_is_right(ws.tabs[n - 1]));
            }
        }
        assert(tabs_are_odd(ws, n) == (tabs_are_odd(ws, n - 1) || tab.panes.len() == 0)) by {
            if tab.panes.len() == 0 {
                assert(ws.tabs[n - 1].panes.len() == 0);
            }
        }
    }
}

proof fn lemma_name_severity(file: Seq<WorkspaceView>, i: int)
    requires
        0 <= i < file.len(),
    ensures
        found_with(validate::name_findings(file, i), Severity::Error) == !name_is_right(file, i),
        !found_with(validate::name_findings(file, i), Severity::Warning),
{
    reveal(found_with);
    let all = validate::name_findings(file, i);
    assert forall|k: int| 0 <= k < all.len() implies (#[trigger] all[k]).severity
        == Severity::Error by {}
    if all.len() > 0 {
        assert(all[0].severity == Severity::Error);
    }
}

proof fn lemma_workspaces_severity(file: Seq<WorkspaceView>, n: int)
    requires
        0 <= n <= file.len(),
    ensures
        found_with(validate::workspaces_findings(file, n), Severity::Error)
            == !workspaces_are_right(file, n),
        found_with(validate::workspaces_findings(file, n), Severity::Warning)
            == workspaces_are_odd(file, n),
    decreases n,
{
    lemma_has_none();
    if n > 0 {
        let i = n - 1;
        let ws = file[i];
        let tabs = ws.tabs.len() as int;
        lemma_workspaces_severity(file, i);
        lemma_name_severity(file, i);
        lemma_tabs_severity(ws, tabs);
        let earlier = validate::workspaces_findings(file, i);
        let name = validate::name_findings(file, i);
        lemma_has_in_either(earlier, name);
        lemma_has_in_either(earlier + name, validate::tabs_findings(ws, tabs));
        assert(workspace_is_right(file, i) == (name_is_right(file, i) && tabs_are_right(
            ws,
            tabs,
        )));
        assert(has_empty_tab(file[i]) == tabs_are_odd(ws, tabs));
        assert(workspaces_are_right(file, n) == (workspaces_are_right(file, i)
            && workspace_is_right(file, i)));
        assert(workspaces_are_odd(file, n) == (workspaces_are_odd(file, i) || has_empty_tab(
            file[i],
        )));
    }
}

proof fn lemma_focus_count(file: Seq<WorkspaceView>, n: int)
    requires
        0 <= n <= file.len(),
    ensures
        (validate::focus_count(file, n) == 0) == (forall|i: int|
            0 <= i < n ==> !(#[trigger] file[i]).focus),
        (validate::focus_count(file, n) > 1) == (exists|i: int, j: int|
            0 <= i < j < n && (#[trigger] file[i]).focus && (#[trigger] file[j]).focus),
    decreases n,
{
    if n > 0 {
        lemma_focus_count(file, n - 1);
        if file[n - 1].focus && validate::focus_count(file, n - 1) > 0 {
            let i = choose|i: int| 0 <= i < n - 1 && (#[trigger] file[i]).focus;
            assert(file[i].focus && file[n - 1].focus);
        }
    }
}

/// A layout is accepted where nothing is wrong with it and nothing is odd about
/// it. An error is found exactly where something is wrong: a workspace has no
/// name or one that another has, a pane has a ratio it cannot have, waits
/// without a command, has an empty id or one that another has, or is split off
/// what it cannot be split off. A warning is found exactly where something is
/// odd: a tab has no panes, or two workspaces ask for focus.
pub proof fn law_what_is_wrong_and_what_is_odd(file: Seq<WorkspaceView>)
    ensures
        found_with(validate::file_findings(file), Severity::Error) == !(forall|i: int|
            0 <= i < file.len() ==> #[trigger] workspace_is_right(file, i)),
        found_with(validate::file_findings(file), Severity::Warning) == (two_ask_for_focus(file)
            || exists|i: int| 0 <= i < file.len() && has_empty_tab(#[trigger] file[i])),
        (validate::file_findings(file).len() == 0) == (!found_with(
            validate::file_findings(file),
            Severity::Error,
        ) && !found_with(validate::file_findings(file), Severity::Warning)),
{
    reveal(found_with);
    lemma_has_none();
    let n = file.len() as int;
    let all = validate::file_findings(file);
    lemma_workspaces_severity(file, n);
    lemma_focus_count(file, n);
    let count = validate::focus_count(file, n);
    let focus: Seq<FindingView> = if count > 1 {
        seq![
            validate::warning_view(
                text::decimal_text(count)
                    + " workspaces have `focus: true`; only the last one will receive focus"@,
            ),
        ]
    } else {
        Seq::empty()
    };
    if count > 1 {
        lemma_has_one(focus[0]);
    }
    lemma_has_in_either(validate::workspaces_findings(file, n), focus);
    assert(all == validate::workspaces_findings(file, n) + focus);
    if all.len() > 0 {
        let severity = all[0].severity;
        assert(found_with(all, severity));
        assert(severity == Severity::Error || severity == Severity::Warning);
    }
}

/// What loading hands on is accepted: nothing is wrong with it and nothing is
/// odd about it, and anything that was found on the way is handed back instead.
pub proof fn law_only_accepted_layouts_are_loaded(
    loaded: crate::includes::Loaded,
    r: Result<config::SpreadFile, Vec<validate::ValidationFinding>>,
)
    requires
        crate::includes::settled(loaded, r),
    ensures
        match r {
            Ok(file) => {
                &&& file.deep_view() == loaded.workspaces
                &&& loaded.findings.len() == 0
                &&& forall|i: int|
                    0 <= i < loaded.workspaces.len() ==> #[trigger] workspace_is_right(
                        loaded.workspaces,
                        i,
                    )
                &&& forall|i: int|
                    0 <= i < loaded.workspaces.len() ==> !has_empty_tab(
                        #[trigger] loaded.workspaces[i],
                    )
                &&& !two_ask_for_focus(loaded.workspaces)
            },
            Err(found) => {
                &&& found@.len() > 0
                &&& forall|k: int|
                    0 <= k < loaded.findings.len() ==> found.deep_view()[k]
                        == #[trigger] loaded.findings[k]
            },
        },
{
    law_what_is_wrong_and_what_is_odd(loaded.workspaces);
    if let Err(found) = r {
        let all = loaded.findings + validate::file_findings(loaded.workspaces);
        assert forall|k: int| 0 <= k < loaded.findings.len() implies found.deep_view()[k]
            == #[trigger] loaded.findings[k] by {
            assert(all[k] == loaded.findings[k]);
        }
    }
}

/// A layout file that could be parsed is handed on where nothing is wrong with
/// it and nothing odd about it, and otherwise everything that was found is. One
/// that could not be parsed is one error.
pub proof fn law_only_accepted_layouts_pass_validation(
    path: Seq<char>,
    parsed: Result<config::SpreadFile, String>,
    r: Result<config::SpreadFile, Vec<validate::ValidationFinding>>,
)
    requires
        validate::checked(path, parsed, r),
    ensures
        match (parsed, r) {
            (Ok(file), Ok(accepted)) => {
                let view = file.deep_view();
                &&& accepted == file
                &&& forall|i: int| 0 <= i < view.len() ==> #[trigger] workspace_is_right(view, i)
                &&& forall|i: int| 0 <= i < view.len() ==> !has_empty_tab(#[trigger] view[i])
                &&& !two_ask_for_focus(view)
            },
            (Ok(file), Err(found)) => {
                &&& found@.len() > 0
                &&& found.deep_view() == validate::file_findings(file.deep_view())
            },
            (Err(_), Err(found)) => {
                &&& found@.len() == 1
                &&& found.deep_view()[0].severity == Severity::Error
            },
            (Err(_), Ok(_)) => false,
        },
{
    if let Ok(file) = parsed {
        law_what_is_wrong_and_what_is_odd(file.deep_view());
    }
    if let Err(found) = r {
        assert(found@.len() == found.deep_view().len());
    }
}

} // verus!
