//! What a layout must satisfy before it is planned.

use vstd::prelude::*;

use crate::config;
use crate::config::{Pane, SpreadFile, Tab, Workspace};
use crate::text;
use crate::text::{decimal, same_text};

verus! {

/// How bad a finding is.
#[derive(Debug, Clone, Copy, PartialEq, Eq, Structural)]
pub enum Severity {
    Error,
    Warning,
}

/// Something amiss in a layout.
#[derive(Debug, Clone, PartialEq)]
pub struct ValidationFinding {
    pub severity: Severity,
    pub message: String,
}

/// The mathematical value of a [`ValidationFinding`].
pub struct FindingView {
    pub severity: Severity,
    pub message: Seq<char>,
}

impl DeepView for ValidationFinding {
    type V = FindingView;

    open spec fn deep_view(&self) -> FindingView {
        FindingView { severity: self.severity, message: self.message@ }
    }
}

/// A layout file's text, and where it came from.
#[derive(Debug, Clone, Copy)]
pub struct SourceFile<'a> {
    pub yaml: &'a str,
    pub path: &'a str,
}

/// An error with this message.
pub open spec fn error_view(message: Seq<char>) -> FindingView {
    FindingView { severity: Severity::Error, message }
}

/// A warning with this message.
pub open spec fn warning_view(message: Seq<char>) -> FindingView {
    FindingView { severity: Severity::Warning, message }
}

/// An error with this message.
pub fn error(message: String) -> (finding: ValidationFinding)
    ensures
        finding.deep_view() == error_view(message@),
{
    ValidationFinding { severity: Severity::Error, message }
}

/// The finding as it is shown: its severity in front of its message.
pub open spec fn finding_text(finding: FindingView) -> Seq<char> {
    match finding.severity {
        Severity::Error => "[ERROR] "@ + finding.message,
        Severity::Warning => "[WARNING] "@ + finding.message,
    }
}

/// The finding as it is shown: its severity in front of its message.
pub fn finding_line(finding: &ValidationFinding) -> (line: String)
    ensures
        line@ == finding_text(finding.deep_view()),
{
    let mut line: String = match finding.severity {
        Severity::Error => "[ERROR] ".to_string(),
        Severity::Warning => "[WARNING] ".to_string(),
    };
    line.append(finding.message.as_str());
    line
}

/// Adds one finding.
fn push_finding(findings: &mut Vec<ValidationFinding>, severity: Severity, message: String)
    ensures
        final(findings).deep_view() == old(findings).deep_view().push(
            FindingView { severity, message: message@ },
        ),
{
    let ghost earlier = findings.deep_view();
    findings.push(ValidationFinding { severity, message });
    assert(findings.deep_view() =~= earlier.push(FindingView { severity, message: message@ }));
}

/// One of the first `n` panes declares `id`.
pub open spec fn declares(panes: Seq<config::PaneView>, n: int, id: Seq<char>) -> bool {
    exists|q: int| 0 <= q < n && (#[trigger] panes[q]).id == Some(id)
}

/// Where a tab is, in words.
pub open spec fn place_text(label: Seq<char>, ws_name: Seq<char>) -> Seq<char> {
    "tab '"@ + label + "' of workspace '"@ + ws_name + "'"@
}

/// What is amiss with the pane that pane `p` is split off. The first pane is
/// the tab's root and no split. Any other may name an earlier pane of its tab
/// by an id that is not empty.
pub open spec fn from_findings(
    ws_name: Seq<char>,
    label: Seq<char>,
    panes: Seq<config::PaneView>,
    p: int,
) -> Seq<FindingView> {
    match panes[p].from {
        None => Seq::empty(),
        Some(from) => if p == 0 {
            seq![
                error_view(
                    "the first pane in "@ + place_text(label, ws_name)
                        + " cannot use `from`: it is the tab's root pane, not a split"@,
                ),
            ]
        } else if from.len() > 0 && declares(panes, p, from) {
            Seq::empty()
        } else {
            let reason = if declares(panes, panes.len() as int, from) {
                "`from` may only reference a pane declared earlier in the same tab"@
            } else {
                "no pane in this tab declares that id"@
            };
            seq![
                error_view(
                    "pane `from: "@ + from + "` in "@ + place_text(label, ws_name)
                        + " is invalid: "@ + reason,
                ),
            ]
        },
    }
}

/// What is amiss with the id of pane `p`: it may not be empty, nor that of an
/// earlier pane of the tab.
pub open spec fn id_findings(
    ws_name: Seq<char>,
    label: Seq<char>,
    panes: Seq<config::PaneView>,
    p: int,
) -> Seq<FindingView> {
    match panes[p].id {
        None => Seq::empty(),
        Some(id) => if id.len() == 0 {
            seq![error_view("pane id in "@ + place_text(label, ws_name) + " must not be empty"@)]
        } else if declares(panes, p, id) {
            seq![error_view("duplicate pane id '"@ + id + "' in "@ + place_text(label, ws_name))]
        } else {
            Seq::empty()
        },
    }
}

/// What is amiss with the ids and sources of the first `n` panes.
pub open spec fn source_findings(
    ws_name: Seq<char>,
    label: Seq<char>,
    panes: Seq<config::PaneView>,
    n: int,
) -> Seq<FindingView>
    decreases n,
{
    if n <= 0 {
        Seq::empty()
    } else {
        source_findings(ws_name, label, panes, n - 1) + from_findings(
            ws_name,
            label,
            panes,
            n - 1,
        ) + id_findings(ws_name, label, panes, n - 1)
    }
}

/// What is amiss with a pane by itself: its ratio, or a wait for the output of
/// no command.
pub open spec fn pane_findings(ws_name: Seq<char>, pane: config::PaneView) -> Seq<FindingView> {
    let ratio = match pane.ratio {
        Some(ratio) => if config::ratio_refused(ratio) {
            seq![
                error_view(
                    "pane ratio "@ + ratio + " in workspace '"@ + ws_name
                        + "' must be between 0 and 1 (exclusive)"@,
                ),
            ]
        } else {
            Seq::empty()
        },
        None => Seq::empty(),
    };
    let wait = if pane.wait_for is Some && pane.command is None {
        seq![
            error_view(
                "wait_for was specified on a pane without a command in workspace '"@ + ws_name
                    + "'"@,
            ),
        ]
    } else {
        Seq::empty()
    };
    ratio + wait
}

/// What is amiss with the first `n` panes, each by itself.
pub open spec fn panes_findings(
    ws_name: Seq<char>,
    panes: Seq<config::PaneView>,
    n: int,
) -> Seq<FindingView>
    decreases n,
{
    if n <= 0 {
        Seq::empty()
    } else {
        panes_findings(ws_name, panes, n - 1) + pane_findings(ws_name, panes[n - 1])
    }
}

/// What a tab is called in a message.
pub open spec fn label_text(tab: config::TabView) -> Seq<char> {
    match tab.label {
        Some(label) => label,
        None => "(unnamed)"@,
    }
}

/// What is amiss with a tab.
pub open spec fn tab_findings(ws_name: Seq<char>, tab: config::TabView) -> Seq<FindingView> {
    let empty = if tab.panes.len() == 0 {
        seq![
            warning_view(
                "tab '"@ + label_text(tab) + "' in workspace '"@ + ws_name + "' has no panes"@,
            ),
        ]
    } else {
        Seq::empty()
    };
    empty + source_findings(ws_name, label_text(tab), tab.panes, tab.panes.len() as int)
        + panes_findings(ws_name, tab.panes, tab.panes.len() as int)
}

/// What is amiss with the first `n` tabs of a workspace.
pub open spec fn tabs_findings(ws: config::WorkspaceView, n: int) -> Seq<FindingView>
    decreases n,
{
    if n <= 0 {
        Seq::empty()
    } else {
        tabs_findings(ws, n - 1) + tab_findings(ws.name, ws.tabs[n - 1])
    }
}

/// One of the first `n` workspaces has this name.
pub open spec fn name_used(file: Seq<config::WorkspaceView>, n: int, name: Seq<char>) -> bool {
    exists|j: int| 0 <= j < n && (#[trigger] file[j]).name == name
}

/// What is amiss with the name of workspace `i`.
pub open spec fn name_findings(file: Seq<config::WorkspaceView>, i: int) -> Seq<FindingView> {
    let name = file[i].name;
    let empty = if name.len() == 0 {
        seq![error_view("workspace name must not be empty"@)]
    } else {
        Seq::empty()
    };
    let twice = if name_used(file, i, name) {
        seq![error_view("duplicate workspace name '"@ + name + "'"@)]
    } else {
        Seq::empty()
    };
    empty + twice
}

/// What is amiss with the first `n` workspaces.
pub open spec fn workspaces_findings(file: Seq<config::WorkspaceView>, n: int) -> Seq<FindingView>
    decreases n,
{
    if n <= 0 {
        Seq::empty()
    } else {
        workspaces_findings(file, n - 1) + name_findings(file, n - 1) + tabs_findings(
            file[n - 1],
            file[n - 1].tabs.len() as int,
        )
    }
}

/// How many of the first `n` workspaces ask for focus.
pub open spec fn focus_count(file: Seq<config::WorkspaceView>, n: int) -> nat
    decreases n,
{
    if n <= 0 {
        0
    } else if file[n - 1].focus {
        focus_count(file, n - 1) + 1
    } else {
        focus_count(file, n - 1)
    }
}

/// Everything amiss with a layout, in the order of its workspaces, tabs and
/// panes.
pub open spec fn file_findings(file: Seq<config::WorkspaceView>) -> Seq<FindingView> {
    let count = focus_count(file, file.len() as int);
    let focus = if count > 1 {
        seq![
            warning_view(
                text::decimal_text(count)
                    + " workspaces have `focus: true`; only the last one will receive focus"@,
            ),
        ]
    } else {
        Seq::empty()
    };
    workspaces_findings(file, file.len() as int) + focus
}

/// Whether one of the first `n` panes declares `id`.
fn is_declared(panes: &Vec<Pane>, n: usize, id: &str) -> (r: bool)
    requires
        n <= panes.len(),
    ensures
        r == declares(panes.deep_view(), n as int, id@),
{
    let ghost view = panes.deep_view();
    let mut q: usize = 0;
    while q < n
        invariant
            q <= n <= panes.len(),
            view == panes.deep_view(),
            forall|k: int| 0 <= k < q ==> (#[trigger] view[k]).id != Some(id@),
        decreases n - q,
    {
        assert(view[q as int] == panes[q as int].deep_view());
        if let Some(declared) = &panes[q].id {
            if same_text(declared.as_str(), id) {
                return true;
            }
        }
        q = q + 1;
    }
    false
}

fn place(label: &str, ws_name: &str) -> (text: String)
    ensures
        text@ == place_text(label@, ws_name@),
{
    let mut text: String = "tab '".to_string();
    text.append(label);
    text.append("' of workspace '");
    text.append(ws_name);
    text.append("'");
    text
}

/// Adds what is amiss with the pane that pane `p` is split off.
fn check_from(
    findings: &mut Vec<ValidationFinding>,
    ws_name: &str,
    label: &str,
    panes: &Vec<Pane>,
    p: usize,
)
    requires
        p < panes.len(),
    ensures
        final(findings).deep_view() == old(findings).deep_view() + from_findings(
            ws_name@,
            label@,
            panes.deep_view(),
            p as int,
        ),
{
    let ghost earlier = findings.deep_view();
    assert(panes.deep_view()[p as int] == panes[p as int].deep_view());
    if let Some(from) = &panes[p].from {
        if p == 0 {
            let mut message: String = "the first pane in ".to_string();
            message.append(place(label, ws_name).as_str());
            message.append(" cannot use `from`: it is the tab's root pane, not a split");
            push_finding(findings, Severity::Error, message);
        } else if from.as_str().is_empty() || !is_declared(panes, p, from.as_str()) {
            let mut message: String = "pane `from: ".to_string();
            message.append(from.as_str());
            message.append("` in ");
            message.append(place(label, ws_name).as_str());
            message.append(" is invalid: ");
            if is_declared(panes, panes.len(), from.as_str()) {
                message.append("`from` may only reference a pane declared earlier in the same tab");
            } else {
                message.append("no pane in this tab declares that id");
            }
            push_finding(findings, Severity::Error, message);
        }
    }
    assert(findings.deep_view() =~= earlier + from_findings(
        ws_name@,
        label@,
        panes.deep_view(),
        p as int,
    ));
}

/// Adds what is amiss with the id of pane `p`.
fn check_id(
    findings: &mut Vec<ValidationFinding>,
    ws_name: &str,
    label: &str,
    panes: &Vec<Pane>,
    p: usize,
)
    requires
        p < panes.len(),
    ensures
        final(findings).deep_view() == old(findings).deep_view() + id_findings(
            ws_name@,
            label@,
            panes.deep_view(),
            p as int,
        ),
{
    let ghost earlier = findings.deep_view();
    assert(panes.deep_view()[p as int] == panes[p as int].deep_view());
    if let Some(id) = &panes[p].id {
        if id.as_str().is_empty() {
            let mut message: String = "pane id in ".to_string();
            message.append(place(label, ws_name).as_str());
            message.append(" must not be empty");
            push_finding(findings, Severity::Error, message);
        } else if is_declared(panes, p, id.as_str()) {
            let mut message: String = "duplicate pane id '".to_string();
            message.append(id.as_str());
            message.append("' in ");
            message.append(place(label, ws_name).as_str());
            push_finding(findings, Severity::Error, message);
        }
    }
    assert(findings.deep_view() =~= earlier + id_findings(
        ws_name@,
        label@,
        panes.deep_view(),
        p as int,
    ));
}

/// Checks the `id` and `from` of a tab's panes: ids must be non-empty and
/// unique within the tab, and `from` must reference an id declared on an
/// earlier pane of the same tab. The first pane, being the tab's root rather
/// than a split, cannot use `from` at all.
pub fn validate_pane_split_sources(ws_name: &str, tab_label: &str, tab: &Tab) -> (findings: Vec<
    ValidationFinding,
>)
    ensures
        findings.deep_view() == source_findings(
            ws_name@,
            tab_label@,
            tab.deep_view().panes,
            tab.deep_view().panes.len() as int,
        ),
{
    let ghost view = tab.deep_view().panes;
    let mut findings: Vec<ValidationFinding> = Vec::new();
    assert(findings.deep_view() =~= source_findings(ws_name@, tab_label@, view, 0));
    let mut p: usize = 0;
    while p < tab.panes.len()
        invariant
            p <= tab.panes.len(),
            view == tab.panes.deep_view(),
            findings.deep_view() == source_findings(ws_name@, tab_label@, view, p as int),
        decreases tab.panes.len() - p,
    {
        check_from(&mut findings, ws_name, tab_label, &tab.panes, p);
        check_id(&mut findings, ws_name, tab_label, &tab.panes, p);
        p = p + 1;
    }
    findings
}

/// Adds what is amiss with a pane by itself.
fn check_pane(findings: &mut Vec<ValidationFinding>, ws_name: &str, pane: &Pane)
    ensures
        final(findings).deep_view() == old(findings).deep_view() + pane_findings(
            ws_name@,
            pane.deep_view(),
        ),
{
    let ghost earlier = findings.deep_view();
    if let Some(ratio) = &pane.ratio {
        if ratio.is_refused() {
            let mut message: String = "pane ratio ".to_string();
            message.append(ratio.decimal());
            message.append(" in workspace '");
            message.append(ws_name);
            message.append("' must be between 0 and 1 (exclusive)");
            push_finding(findings, Severity::Error, message);
        }
    }
    if pane.wait_for.is_some() && pane.command.is_none() {
        let mut message: String =
            "wait_for was specified on a pane without a command in workspace '".to_string();
        message.append(ws_name);
        message.append("'");
        push_finding(findings, Severity::Error, message);
    }
    assert(findings.deep_view() =~= earlier + pane_findings(ws_name@, pane.deep_view()));
}

/// Adds what is amiss with a tab.
fn check_tab(findings: &mut Vec<ValidationFinding>, ws_name: &str, tab: &Tab)
    ensures
        final(findings).deep_view() == old(findings).deep_view() + tab_findings(
            ws_name@,
            tab.deep_view(),
        ),
{
    let ghost start = findings.deep_view();
    let ghost view = tab.deep_view();
    let label: &str = match &tab.label {
        Some(label) => label.as_str(),
        None => "(unnamed)",
    };
    if tab.panes.len() == 0 {
        let mut message: String = "tab '".to_string();
        message.append(label);
        message.append("' in workspace '");
        message.append(ws_name);
        message.append("' has no panes");
        push_finding(findings, Severity::Warning, message);
    }
    let ghost before_sources = findings.deep_view();
    let mut more: Vec<ValidationFinding> = validate_pane_split_sources(ws_name, label, tab);
    let ghost sources = more.deep_view();
    findings.append(&mut more);
    assert(findings.deep_view() =~= before_sources + sources);
    let ghost before_panes = findings.deep_view();
    let mut p: usize = 0;
    assert(findings.deep_view() =~= before_panes + panes_findings(ws_name@, view.panes, 0));
    while p < tab.panes.len()
        invariant
            p <= tab.panes.len(),
            view == tab.deep_view(),
            findings.deep_view() == before_panes + panes_findings(ws_name@, view.panes, p as int),
        decreases tab.panes.len() - p,
    {
        assert(view.panes[p as int] == tab.panes[p as int].deep_view());
        check_pane(findings, ws_name, &tab.panes[p]);
        p = p + 1;
        assert(findings.deep_view() =~= before_panes + panes_findings(
            ws_name@,
            view.panes,
            p as int,
        ));
    }
    assert(findings.deep_view() =~= start + tab_findings(ws_name@, view));
}

/// Whether one of the first `n` workspaces has this name.
fn is_name_used(file: &SpreadFile, n: usize, name: &str) -> (r: bool)
    requires
        n <= file.workspaces.len(),
    ensures
        r == name_used(file.deep_view(), n as int, name@),
{
    let ghost view = file.deep_view();
    let mut j: usize = 0;
    while j < n
        invariant
            j <= n <= file.workspaces.len(),
            view == file.deep_view(),
            forall|k: int| 0 <= k < j ==> (#[trigger] view[k]).name != name@,
        decreases n - j,
    {
        assert(view[j as int] == file.workspaces[j as int].deep_view());
        if same_text(file.workspaces[j].name.as_str(), name) {
            return true;
        }
        j = j + 1;
    }
    false
}

/// Adds what is amiss with workspace `i`.
fn check_workspace(findings: &mut Vec<ValidationFinding>, file: &SpreadFile, i: usize)
    requires
        i < file.workspaces.len(),
    ensures
        final(findings).deep_view() == old(findings).deep_view() + name_findings(
            file.deep_view(),
            i as int,
        ) + tabs_findings(
            file.deep_view()[i as int],
            file.deep_view()[i as int].tabs.len() as int,
        ),
{
    let ghost start = findings.deep_view();
    let ghost view = file.deep_view();
    let ws: &Workspace = &file.workspaces[i];
    assert(view[i as int] == ws.deep_view());
    if ws.name.as_str().is_empty() {
        push_finding(findings, Severity::Error, "workspace name must not be empty".to_string());
    }
    if is_name_used(file, i, ws.name.as_str()) {
        let mut message: String = "duplicate workspace name '".to_string();
        message.append(ws.name.as_str());
        message.append("'");
        push_finding(findings, Severity::Error, message);
    }
    assert(findings.deep_view() =~= start + name_findings(view, i as int));
    let ghost named = findings.deep_view();
    let mut t: usize = 0;
    assert(findings.deep_view() =~= named + tabs_findings(ws.deep_view(), 0));
    while t < ws.tabs.len()
        invariant
            t <= ws.tabs.len(),
            findings.deep_view() == named + tabs_findings(ws.deep_view(), t as int),
        decreases ws.tabs.len() - t,
    {
        assert(ws.deep_view().tabs[t as int] == ws.tabs[t as int].deep_view());
        check_tab(findings, ws.name.as_str(), &ws.tabs[t]);
        t = t + 1;
        assert(findings.deep_view() =~= named + tabs_findings(ws.deep_view(), t as int));
    }
}

/// Everything amiss with `file`.
pub fn validate(file: &SpreadFile) -> (findings: Vec<ValidationFinding>)
    ensures
        findings.deep_view() == file_findings(file.deep_view()),
{
    let ghost view = file.deep_view();
    let mut findings: Vec<ValidationFinding> = Vec::new();
    assert(findings.deep_view() =~= workspaces_findings(view, 0));
    let mut count: usize = 0;
    let mut i: usize = 0;
    while i < file.workspaces.len()
        invariant
            i <= file.workspaces.len(),
            view == file.deep_view(),
            count == focus_count(view, i as int),
            count <= i,
            findings.deep_view() == workspaces_findings(view, i as int),
        decreases file.workspaces.len() - i,
    {
        assert(view[i as int] == file.workspaces[i as int].deep_view());
        if file.workspaces[i].focus {
            count = count + 1;
        }
        check_workspace(&mut findings, file, i);
        i = i + 1;
    }
    if count > 1 {
        let mut message: String = decimal(count as u64);
        message.append(" workspaces have `focus: true`; only the last one will receive focus");
        push_finding(&mut findings, Severity::Warning, message);
    }
    assert(findings.deep_view() =~= file_findings(view));
    findings
}

/// What comes of a layout file's text: the layout, if the text could be parsed
/// and nothing is amiss with it, and otherwise everything that is amiss.
pub open spec fn checked(
    path: Seq<char>,
    parsed: Result<SpreadFile, String>,
    r: Result<SpreadFile, Vec<ValidationFinding>>,
) -> bool {
    match parsed {
        Ok(file) => if file_findings(file.deep_view()).len() == 0 {
            r == Ok::<SpreadFile, Vec<ValidationFinding>>(file)
        } else {
            r is Err && r->Err_0.deep_view() == file_findings(file.deep_view())
        },
        Err(message) => {
            &&& r is Err
            &&& r->Err_0.deep_view() == seq![
                error_view("failed to parse config file "@ + path + ": "@ + message@),
            ]
        },
    }
}

/// Validates a layout file: parses the text of `source` with `parse`, which
/// gives the layout or the parser's message, and checks the layout.
///
/// # Errors
///
/// Returns a single error that names the file if its text could not be parsed,
/// and otherwise every finding, warnings as well as errors.
pub fn validate_config<F: FnOnce(&str) -> Result<SpreadFile, String>>(
    source: SourceFile<'_>,
    parse: F,
) -> (r: Result<SpreadFile, Vec<ValidationFinding>>)
    requires
        call_requires(parse, (source.yaml,)),
    ensures
        exists|parsed: Result<SpreadFile, String>| #[trigger]
            call_ensures(parse, (source.yaml,), parsed) && checked(source.path@, parsed, r),
{
    let parsed: Result<SpreadFile, String> = parse(source.yaml);
    validate_parsed(source.path, parsed)
}

/// Validates the layout file at `path`. `parsed` is what parsing its text
/// gave: the layout, or the parser's message.
///
/// # Errors
///
/// Returns a single error that names the file if its text could not be parsed,
/// and otherwise every finding, warnings as well as errors.
pub fn validate_parsed(path: &str, parsed: Result<SpreadFile, String>) -> (r: Result<
    SpreadFile,
    Vec<ValidationFinding>,
>)
    ensures
        checked(path@, parsed, r),
{
    match parsed {
        Ok(file) => {
            let findings: Vec<ValidationFinding> = validate(&file);
            if findings.len() == 0 {
                Ok(file)
            } else {
                Err(findings)
            }
        },
        Err(message) => {
            let mut text: String = "failed to parse config file ".to_string();
            text.append(path);
            text.append(": ");
            text.append(message.as_str());
            let findings: Vec<ValidationFinding> = vec![error(text)];
            assert(findings.deep_view() =~= seq![error_view(text@)]);
            Err(findings)
        },
    }
}

} // verus!
