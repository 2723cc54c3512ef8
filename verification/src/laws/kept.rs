//! What loading a layout keeps, and what it makes of its paths.

use vstd::prelude::*;

use crate::config;
use crate::config::{PaneView, TabView, WorkspaceEntryView, WorkspaceView};
use crate::env;
use crate::includes;
use crate::includes::{Disk, Search, SourceOutcomeView, MAX_INCLUDE_DEPTH};
use crate::laws::built;
use crate::path;

verus! {

/// Two panes that differ in their directory at most.
pub open spec fn same_pane_but_paths(a: PaneView, b: PaneView) -> bool {
    &&& b.id == a.id
    &&& b.command == a.command
    &&& b.env == a.env
    &&& b.split == a.split
    &&& b.from == a.from
    &&& b.ratio == a.ratio
    &&& b.wait_for == a.wait_for
    &&& b.focus == a.focus
    &&& (b.cwd is Some) == (a.cwd is Some)
}

/// Two tabs that differ in their directory and those of their panes at most.
pub open spec fn same_tab_but_paths(a: TabView, b: TabView) -> bool {
    &&& b.label == a.label
    &&& (b.cwd is Some) == (a.cwd is Some)
    &&& b.panes.len() == a.panes.len()
    &&& forall|p: int|
        0 <= p < a.panes.len() ==> same_pane_but_paths(#[trigger] a.panes[p], b.panes[p])
}

/// Two workspaces that differ in their directories at most.
pub open spec fn same_but_paths(a: WorkspaceView, b: WorkspaceView) -> bool {
    &&& b.name == a.name
    &&& b.env == a.env
    &&& b.focus == a.focus
    &&& b.tabs.len() == a.tabs.len()
    &&& forall|t: int| 0 <= t < a.tabs.len() ==> same_tab_but_paths(#[trigger] a.tabs[t], b.tabs[t])
}

/// Resolving paths changes nothing but paths.
pub proof fn law_resolving_changes_nothing_but_paths(
    ws: WorkspaceView,
    variables: Seq<(Seq<char>, Seq<char>)>,
    cwd: Seq<char>,
)
    ensures
        same_but_paths(ws, config::resolved_workspace(ws, variables, cwd)),
{
    let resolved = config::resolved_workspace(ws, variables, cwd);
    assert forall|t: int| 0 <= t < ws.tabs.len() implies same_tab_but_paths(
        #[trigger] ws.tabs[t],
        resolved.tabs[t],
    ) by {
        let tab = resolved.tabs[t];
        assert(tab == config::resolved_tab(ws.tabs[t], variables));
        assert forall|p: int| 0 <= p < ws.tabs[t].panes.len() implies same_pane_but_paths(
            #[trigger] ws.tabs[t].panes[p],
            tab.panes[p],
        ) by {
            assert(tab.panes[p] == config::resolved_pane(ws.tabs[t].panes[p], variables));
        }
    }
}

/// Resolving the paths of a layout keeps its workspaces, in order, and changes
/// nothing but their paths.
pub proof fn law_resolving_keeps_the_layout(
    file: Seq<WorkspaceView>,
    variables: Seq<(Seq<char>, Seq<char>)>,
    cwd: Seq<char>,
)
    ensures
        config::resolved_file(file, variables, cwd).len() == file.len(),
        forall|i: int|
            0 <= i < file.len() ==> same_but_paths(
                #[trigger] file[i],
                config::resolved_file(file, variables, cwd)[i],
            ),
{
    assert forall|i: int| 0 <= i < file.len() implies same_but_paths(
        #[trigger] file[i],
        config::resolved_file(file, variables, cwd)[i],
    ) by {
        law_resolving_changes_nothing_but_paths(file[i], variables, cwd);
    }
}

/// A directory is the home directory: what the variable `HOME` holds, and empty
/// where there is no such variable.
pub open spec fn is_home(variables: Seq<(Seq<char>, Seq<char>)>, home: Seq<char>) -> bool {
    &&& forall|k: int|
        0 <= k < variables.len() && (#[trigger] variables[k]).0 == "HOME"@ ==> variables[k].1 == home
    &&& (forall|k: int| 0 <= k < variables.len() ==> (#[trigger] variables[k]).0 != "HOME"@)
        ==> home.len() == 0
}

/// A path is another one, in which a tilde in front stands for the home
/// directory.
pub open spec fn is_expanded(raw: Seq<char>, home: Seq<char>, path: Seq<char>) -> bool {
    if raw == "~"@ {
        path == home
    } else if "~/"@.is_prefix_of(raw) {
        let rest = raw.skip(2);
        &&& built::below(Some(built::directory(home)), Some(rest)) == Some(built::directory(path))
        &&& path::absolute(rest) ==> path == rest
    } else {
        path == raw
    }
}

/// A path leads to a directory as seen from another one.
pub open spec fn leads_from(base: Seq<char>, path: Seq<char>, result: Seq<char>) -> bool {
    &&& built::below(Some(built::directory(base)), Some(path)) == Some(built::directory(result))
    &&& path::absolute(path) ==> result == path
}

proof fn lemma_leads_from(base: Seq<char>, path: Seq<char>)
    ensures
        leads_from(base, path, path::joined_path(base, path)),
{
    if !path::absolute(path) {
        path::law_joining_leads_on(base, path);
    }
}

proof fn lemma_lookup(
    variables: Seq<(Seq<char>, Seq<char>)>,
    name: Seq<char>,
)
    ensures
        match env::lookup(variables, name) {
            Some(value) => exists|k: int|
                0 <= k < variables.len() && #[trigger] variables[k] == (name, value),
            None => forall|k: int| 0 <= k < variables.len() ==> (#[trigger] variables[k]).0 != name,
        },
    decreases variables.len(),
{
    if variables.len() > 0 {
        let front = variables.drop_last();
        lemma_lookup(front, name);
        if variables.last().0 == name {
            assert(variables[variables.len() - 1] == (name, variables.last().1));
        } else if env::lookup(front, name) is Some {
            let value = env::lookup(front, name)->0;
            let k = choose|k: int| 0 <= k < front.len() && #[trigger] front[k] == (name, value);
            assert(variables[k] == (name, value));
        } else {
            assert forall|k: int| 0 <= k < variables.len() implies (#[trigger] variables[k]).0
                != name by {
                if k < front.len() {
                    assert(front[k] == variables[k]);
                }
            }
        }
    }
}

/// No name comes twice.
pub open spec fn names_differ(variables: Seq<(Seq<char>, Seq<char>)>) -> bool {
    forall|i: int, j: int|
        0 <= i < j < variables.len() ==> (#[trigger] variables[i]).0 != (#[trigger] variables[j]).0
}

/// Variables in the order of their names have no name twice.
pub proof fn law_ordered_names_differ(variables: Seq<(Seq<char>, Seq<char>)>)
    requires
        env::sorted_by_name(variables),
    ensures
        names_differ(variables),
{
    assert forall|i: int, j: int| 0 <= i < j < variables.len() implies (
    #[trigger] variables[i]).0 != (#[trigger] variables[j]).0 by {
        assert(crate::text::before(variables[i].0, variables[j].0));
        crate::text::lemma_before_is_strict_order(
            variables[i].0,
            variables[i].0,
            variables[i].0,
        );
    }
}

/// Looking a variable up gives the value it has, and none if there is no such
/// variable.
pub proof fn law_variables_are_found_by_name(
    variables: Seq<(Seq<char>, Seq<char>)>,
    name: Seq<char>,
)
    requires
        names_differ(variables),
    ensures
        forall|value: Seq<char>|
            (#[trigger] variables.contains((name, value))) == (env::lookup(variables, name) == Some(
                value,
            )),
        (env::lookup(variables, name) is None) == (forall|k: int|
            0 <= k < variables.len() ==> (#[trigger] variables[k]).0 != name),
{
    lemma_lookup(variables, name);
    assert forall|value: Seq<char>|
        (#[trigger] variables.contains((name, value))) == (env::lookup(variables, name) == Some(
            value,
        )) by {
        if variables.contains((name, value)) {
            let k = choose|k: int| 0 <= k < variables.len() && variables[k] == (name, value);
            assert(variables[k].0 == name);
            let found = env::lookup(variables, name)->0;
            let j = choose|j: int|
                0 <= j < variables.len() && #[trigger] variables[j] == (name, found);
            if j < k {
                assert(variables[j].0 != variables[k].0);
            } else if k < j {
                assert(variables[k].0 != variables[j].0);
            }
        } else if Some(value) == env::lookup(variables, name) {
            let j = choose|j: int|
                0 <= j < variables.len() && #[trigger] variables[j] == (name, value);
            assert(variables.contains((name, value)));
        }
    }
}

proof fn lemma_home(variables: Seq<(Seq<char>, Seq<char>)>)
    requires
        names_differ(variables),
    ensures
        is_home(variables, config::home_dir(variables)),
{
    lemma_lookup(variables, "HOME"@);
    if env::lookup(variables, "HOME"@) is Some {
        let home = env::lookup(variables, "HOME"@)->0;
        let j = choose|j: int|
            0 <= j < variables.len() && #[trigger] variables[j] == ("HOME"@, home);
        assert forall|k: int|
            0 <= k < variables.len() && (#[trigger] variables[k]).0 == "HOME"@ implies
            variables[k].1 == home by {
            if j < k {
                assert(variables[j].0 != variables[k].0);
            } else if k < j {
                assert(variables[k].0 != variables[j].0);
            }
        }
        assert(variables[j].0 == "HOME"@);
    }
}

/// A tilde in front of a path stands for the home directory, anything else for
/// itself.
pub proof fn law_a_tilde_stands_for_home(
    raw: Seq<char>,
    variables: Seq<(Seq<char>, Seq<char>)>,
)
    requires
        names_differ(variables),
    ensures
        is_home(variables, config::home_dir(variables)),
        is_expanded(raw, config::home_dir(variables), config::expanded(raw, variables)),
{
    reveal_strlit("~");
    reveal_strlit("~/");
    lemma_home(variables);
    let home = config::home_dir(variables);
    if raw != "~"@ {
        if "~/"@.is_prefix_of(raw) {
            assert("~/"@[0] == '~' && "~/"@[1] == '/');
            assert(raw[0] == '~' && raw[1] == '/');
            lemma_leads_from(home, raw.skip(2));
        } else if raw.len() >= 2 && raw[0] == '~' && raw[1] == '/' {
            assert("~/"@ =~= raw.take(2));
        }
    }
}

/// A directory, if there is one, is another one in which a tilde in front
/// stands for the home directory.
pub open spec fn is_expanded_cwd(
    raw: Option<Seq<char>>,
    home: Seq<char>,
    cwd: Option<Seq<char>>,
) -> bool {
    match (raw, cwd) {
        (Some(raw), Some(cwd)) => is_expanded(raw, home, cwd),
        (None, None) => true,
        _ => false,
    }
}

/// The root of a workspace leads from `cwd` to where it says, with a tilde in
/// front for the home directory; without one it is `cwd`.
pub open spec fn is_resolved_root(
    raw: Option<Seq<char>>,
    home: Seq<char>,
    cwd: Seq<char>,
    root: Option<Seq<char>>,
) -> bool {
    match (raw, root) {
        (Some(raw), Some(root)) => exists|path: Seq<char>| #[trigger]
            is_expanded(raw, home, path) && leads_from(cwd, path, root),
        (None, Some(root)) => root == cwd,
        _ => false,
    }
}

/// What resolving makes of the paths of a workspace: its root is seen from
/// `cwd`, and a tilde in front of any path stands for the home directory. Every
/// other directory stays as it is.
pub proof fn law_what_resolving_makes_of_paths(
    ws: WorkspaceView,
    variables: Seq<(Seq<char>, Seq<char>)>,
    cwd: Seq<char>,
)
    requires
        names_differ(variables),
    ensures
        ({
            let home = config::home_dir(variables);
            let resolved = config::resolved_workspace(ws, variables, cwd);
            &&& is_home(variables, home)
            &&& is_resolved_root(ws.root, home, cwd, resolved.root)
            &&& forall|t: int|
                0 <= t < ws.tabs.len() ==> {
                    &&& is_expanded_cwd((#[trigger] ws.tabs[t]).cwd, home, resolved.tabs[t].cwd)
                    &&& forall|p: int|
                        0 <= p < ws.tabs[t].panes.len() ==> is_expanded_cwd(
                            (#[trigger] ws.tabs[t].panes[p]).cwd,
                            home,
                            resolved.tabs[t].panes[p].cwd,
                        )
                }
        }),
{
    let home = config::home_dir(variables);
    let resolved = config::resolved_workspace(ws, variables, cwd);
    lemma_home(variables);
    if ws.root is Some {
        law_a_tilde_stands_for_home(ws.root->0, variables);
        let path = config::expanded(ws.root->0, variables);
        lemma_leads_from(cwd, path);
        assert(is_expanded(ws.root->0, home, path));
    }
    assert forall|t: int| 0 <= t < ws.tabs.len() implies {
        &&& is_expanded_cwd((#[trigger] ws.tabs[t]).cwd, home, resolved.tabs[t].cwd)
        &&& forall|p: int|
            0 <= p < ws.tabs[t].panes.len() ==> is_expanded_cwd(
                (#[trigger] ws.tabs[t].panes[p]).cwd,
                home,
                resolved.tabs[t].panes[p].cwd,
            )
    } by {
        let tab = resolved.tabs[t];
        assert(tab == config::resolved_tab(ws.tabs[t], variables));
        if ws.tabs[t].cwd is Some {
            law_a_tilde_stands_for_home(ws.tabs[t].cwd->0, variables);
        }
        assert forall|p: int| 0 <= p < ws.tabs[t].panes.len() implies is_expanded_cwd(
            (#[trigger] ws.tabs[t].panes[p]).cwd,
            home,
            tab.panes[p].cwd,
        ) by {
            let pane = ws.tabs[t].panes[p];
            assert(tab.panes[p] == config::resolved_pane(pane, variables));
            if pane.cwd is Some {
                law_a_tilde_stands_for_home(pane.cwd->0, variables);
            }
        }
    }
}

/// A workspace stands in a layout file on the disk.
pub open spec fn written(disk: Disk, file: Seq<char>, k: int, ws: WorkspaceView) -> bool {
    &&& disk.sources.contains_key(file)
    &&& disk.sources[file] matches SourceOutcomeView::Parsed(entries)
    &&& 0 <= k < entries.len()
    &&& entries[k] == WorkspaceEntryView::Inline(ws)
}

/// A workspace is one that stands in a layout file on the disk, but for its
/// paths.
pub open spec fn comes_from_disk(disk: Disk, loaded: WorkspaceView) -> bool {
    exists|file: Seq<char>, k: int, ws: WorkspaceView| #[trigger]
        written(disk, file, k, ws) && same_but_paths(ws, loaded)
}

/// All of them do.
pub open spec fn all_come_from_disk(disk: Disk, loaded: Seq<WorkspaceView>) -> bool {
    forall|i: int| 0 <= i < loaded.len() ==> comes_from_disk(disk, #[trigger] loaded[i])
}

proof fn lemma_file_comes_from_disk(
    disk: Disk,
    variables: Seq<(Seq<char>, Seq<char>)>,
    path: Seq<char>,
    base: Seq<char>,
    room: nat,
    ancestors: Seq<Seq<char>>,
)
    ensures
        all_come_from_disk(
            disk,
            includes::load_file(disk, variables, path, base, room, ancestors).workspaces,
        ),
    decreases room, 0nat, 0int,
{
    if room > 0 && disk.sources.contains_key(path) {
        if let SourceOutcomeView::Parsed(entries) = disk.sources[path] {
            lemma_entries_come_from_disk(
                disk,
                variables,
                path,
                base,
                (room - 1) as nat,
                ancestors.push(disk.identities[path]),
                entries,
                entries.len() as int,
            );
        }
    }
}

proof fn lemma_entries_come_from_disk(
    disk: Disk,
    variables: Seq<(Seq<char>, Seq<char>)>,
    path: Seq<char>,
    base: Seq<char>,
    room: nat,
    ancestors: Seq<Seq<char>>,
    entries: Seq<WorkspaceEntryView>,
    n: int,
)
    requires
        disk.sources.contains_key(path),
        disk.sources[path] == SourceOutcomeView::Parsed(entries),
        n <= entries.len(),
    ensures
        all_come_from_disk(
            disk,
            includes::load_entries(
                disk,
                variables,
                path,
                base,
                room,
                ancestors,
                entries,
                n,
            ).workspaces,
        ),
    decreases room, 2nat, n,
{
    if n > 0 {
        lemma_entries_come_from_disk(
            disk,
            variables,
            path,
            base,
            room,
            ancestors,
            entries,
            n - 1,
        );
        let entry = entries[n - 1];
        match entry {
            WorkspaceEntryView::Inline(ws) => {
                law_resolving_changes_nothing_but_paths(ws, variables, base);
                assert(written(disk, path, n - 1, ws));
            },
            WorkspaceEntryView::Include(inc) => {
                let here = includes::dir_of(path, base);
                let candidates = includes::target_candidates(inc.target, here, variables);
                if let Search::Found(target) = includes::first_file(candidates, disk.files) {
                    lemma_file_comes_from_disk(
                        disk,
                        variables,
                        target,
                        includes::dir_of(target, here),
                        room,
                        ancestors,
                    );
                }
            },
        }
        let front = includes::load_entries(
            disk,
            variables,
            path,
            base,
            room,
            ancestors,
            entries,
            n - 1,
        );
        let added = includes::load_entry(disk, variables, path, base, room, ancestors, entry);
        assert(all_come_from_disk(disk, added.workspaces));
        let all = includes::load_entries(
            disk,
            variables,
            path,
            base,
            room,
            ancestors,
            entries,
            n,
        );
        assert(all == includes::followed(front, added));
        assert forall|i: int| 0 <= i < all.workspaces.len() implies comes_from_disk(
            disk,
            #[trigger] all.workspaces[i],
        ) by {
            if i < front.workspaces.len() {
                assert(comes_from_disk(disk, front.workspaces[i]));
            } else if front.missing is None {
                assert(comes_from_disk(disk, added.workspaces[i - front.workspaces.len()]));
            }
        }
    }
}

/// Loading makes nothing up and loses nothing on the way: every workspace of a
/// loaded layout stands in a layout file that was read, with everything that is
/// said of it there but its paths.
pub proof fn law_loading_keeps_what_layouts_say(
    disk: Disk,
    variables: Seq<(Seq<char>, Seq<char>)>,
    path: Seq<char>,
    base: Seq<char>,
)
    ensures
        all_come_from_disk(disk, includes::load_all(disk, variables, path, base).workspaces),
{
    lemma_file_comes_from_disk(
        disk,
        variables,
        path,
        base,
        (MAX_INCLUDE_DEPTH + 1) as nat,
        Seq::empty(),
    );
}

/// The entries of a layout file come to something one after the other: a
/// workspace to itself, its paths resolved, an include to all that the file it
/// names comes to. Their workspaces and their errors stand in that order.
pub proof fn law_entries_come_one_after_the_other(
    disk: Disk,
    variables: Seq<(Seq<char>, Seq<char>)>,
    path: Seq<char>,
    base: Seq<char>,
    room: nat,
    ancestors: Seq<Seq<char>>,
    entries: Seq<WorkspaceEntryView>,
    n: int,
)
    requires
        0 < n <= entries.len(),
        includes::load_entries(
            disk,
            variables,
            path,
            base,
            room,
            ancestors,
            entries,
            n,
        ).missing is None,
    ensures
        ({
            let front = includes::load_entries(
                disk,
                variables,
                path,
                base,
                room,
                ancestors,
                entries,
                n - 1,
            );
            let all = includes::load_entries(
                disk,
                variables,
                path,
                base,
                room,
                ancestors,
                entries,
                n,
            );
            let here = includes::dir_of(path, base);
            match entries[n - 1] {
                WorkspaceEntryView::Inline(ws) => {
                    &&& all.workspaces.len() == front.workspaces.len() + 1
                    &&& all.workspaces.drop_last() == front.workspaces
                    &&& same_but_paths(ws, all.workspaces.last())
                    &&& all.findings == front.findings
                },
                WorkspaceEntryView::Include(inc) => includes::first_file(
                    includes::target_candidates(inc.target, here, variables),
                    disk.files,
                ) matches Search::Found(target) ==> {
                    let more = includes::load_file(
                        disk,
                        variables,
                        target,
                        includes::dir_of(target, here),
                        room,
                        ancestors,
                    );
                    &&& all.workspaces == front.workspaces + more.workspaces
                    &&& all.findings == front.findings + more.findings
                },
            }
        }),
{
    let front = includes::load_entries(
        disk,
        variables,
        path,
        base,
        room,
        ancestors,
        entries,
        n - 1,
    );
    let all = includes::load_entries(disk, variables, path, base, room, ancestors, entries, n);
    let added = includes::load_entry(
        disk,
        variables,
        path,
        base,
        room,
        ancestors,
        entries[n - 1],
    );
    assert(all == includes::followed(front, added));
    if let WorkspaceEntryView::Inline(ws) = entries[n - 1] {
        law_resolving_changes_nothing_but_paths(ws, variables, base);
        assert(all.workspaces.drop_last() =~= front.workspaces);
        assert(all.findings =~= front.findings);
    }
}

/// The place that an include names comes first among those it may lead to: where
/// its path leads from the directory of the file that holds it, a tilde in front
/// standing for the home directory. Behind it come, in that directory, the names
/// of a layout that a repository carries, hidden ones first, and those of a
/// configuration.
pub proof fn law_where_includes_lead(
    raw: Seq<char>,
    dir: Seq<char>,
    variables: Seq<(Seq<char>, Seq<char>)>,
)
    requires
        names_differ(variables),
    ensures
        ({
            let candidates = includes::target_candidates(raw, dir, variables);
            let target = candidates[0];
            let names = seq![
                ".herdr-spreader.yaml"@,
                ".herdr-spreader.yml"@,
                "herdr-spreader.yaml"@,
                "herdr-spreader.yml"@,
                "config.yaml"@,
                "config.yml"@,
            ];
            &&& candidates.len() == names.len() + 1
            &&& exists|path: Seq<char>| #[trigger]
                is_expanded(raw, config::home_dir(variables), path) && built::writes(
                    Some(target),
                    built::below(Some(built::directory(dir)), Some(path)),
                )
            &&& forall|k: int|
                0 <= k < names.len() ==> leads_from(target, #[trigger] names[k], candidates[k + 1])
        }),
{
    let candidates = includes::target_candidates(raw, dir, variables);
    let target = candidates[0];
    let path = config::expanded(raw, variables);
    let joined = path::joined_path(dir, path);
    law_a_tilde_stands_for_home(raw, variables);
    lemma_leads_from(dir, path);
    path::law_normalizing_keeps_root_and_names(joined);
    let plain = crate::text::joined_text(built::directory(joined).names, seq!['/']);
    assert(Seq::<char>::empty() + plain =~= plain);
    assert(target == path::normalized(joined));
    assert(is_expanded(raw, config::home_dir(variables), path));
    let names = seq![
        ".herdr-spreader.yaml"@,
        ".herdr-spreader.yml"@,
        "herdr-spreader.yaml"@,
        "herdr-spreader.yml"@,
        "config.yaml"@,
        "config.yml"@,
    ];
    assert(includes::layout_names() =~= names);
    assert forall|k: int| 0 <= k < names.len() implies leads_from(
        target,
        #[trigger] names[k],
        candidates[k + 1],
    ) by {
        assert(candidates[k + 1] == path::joined_path(target, names[k]));
        lemma_leads_from(target, names[k]);
    }
}

/// A search finds the first candidate that is a file, and nothing only where
/// none is.
pub proof fn law_the_first_file_is_found(
    candidates: Seq<Seq<char>>,
    files: Map<Seq<char>, bool>,
)
    ensures
        match includes::first_file(candidates, files) {
            Search::Found(found) => exists|i: int|
                0 <= i < candidates.len() && #[trigger] candidates[i] == found
                    && files.contains_key(found) && files[found] && forall|j: int|
                    0 <= j < i ==> files.contains_key(#[trigger] candidates[j])
                        && !files[candidates[j]],
            Search::Nothing => forall|j: int|
                0 <= j < candidates.len() ==> files.contains_key(#[trigger] candidates[j])
                    && !files[candidates[j]],
            Search::Unknown(asked) => !files.contains_key(asked),
        },
    decreases candidates.len(),
{
    if candidates.len() > 0 {
        if files.contains_key(candidates[0]) && files[candidates[0]] {
            assert(candidates[0] == includes::first_file(candidates, files)->Found_0);
        } else if files.contains_key(candidates[0]) {
            let rest = candidates.skip(1);
            law_the_first_file_is_found(rest, files);
            match includes::first_file(rest, files) {
                Search::Found(found) => {
                    let i = choose|i: int|
                        0 <= i < rest.len() && #[trigger] rest[i] == found && forall|j: int|
                            0 <= j < i ==> files.contains_key(#[trigger] rest[j])
                                && !files[rest[j]];
                    assert(candidates[i + 1] == found);
                    assert forall|j: int| 0 <= j < i + 1 implies files.contains_key(
                        #[trigger] candidates[j],
                    ) && !files[candidates[j]] by {
                        if j > 0 {
                            assert(candidates[j] == rest[j - 1]);
                        }
                    }
                },
                Search::Nothing => {
                    assert forall|j: int| 0 <= j < candidates.len() implies files.contains_key(
                        #[trigger] candidates[j],
                    ) && !files[candidates[j]] by {
                        if j > 0 {
                            assert(candidates[j] == rest[j - 1]);
                        }
                    }
                },
                Search::Unknown(_) => {},
            }
        }
    }
}

/// Two places lie in a directory, under the names of a configuration, best
/// first.
pub open spec fn are_configs_in(paths: Seq<Seq<char>>, dir: Seq<char>) -> bool {
    &&& paths.len() == 2
    &&& leads_from(dir, "config.yaml"@, paths[0])
    &&& leads_from(dir, "config.yml"@, paths[1])
}

/// A directory is another one, with a name behind it.
pub open spec fn is_subdirectory(path: Seq<char>, dir: Seq<char>, name: Seq<char>) -> bool {
    leads_from(dir, name, path)
}

proof fn lemma_configs_in(dir: Seq<char>)
    ensures
        are_configs_in(config::inside(dir, config::config_names()), dir),
{
    lemma_leads_from(dir, "config.yaml"@);
    lemma_leads_from(dir, "config.yml"@);
}

/// A configuration is looked for in the directory of the plugin, if the
/// environment names one, then in that of this program below
/// `XDG_CONFIG_HOME`, if the environment names that, then in that below
/// `.config` in the home directory.
pub proof fn law_where_configurations_are_looked_for(variables: Seq<(Seq<char>, Seq<char>)>)
    requires
        names_differ(variables),
    ensures
        ({
            let all = config::config_candidates(variables);
            let plugin = env::lookup(variables, "HERDR_PLUGIN_CONFIG_DIR"@);
            let xdg = env::lookup(variables, "XDG_CONFIG_HOME"@);
            let a: int = if plugin is Some {
                2
            } else {
                0
            };
            let b: int = if xdg is Some {
                a + 2
            } else {
                a
            };
            &&& all.len() == b + 2
            &&& plugin matches Some(dir) ==> are_configs_in(all.subrange(0, 2), dir)
            &&& xdg matches Some(dir) ==> exists|own: Seq<char>| #[trigger]
                is_subdirectory(own, dir, "herdr-spreader"@) && are_configs_in(
                    all.subrange(a, a + 2),
                    own,
                )
            &&& is_home(variables, config::home_dir(variables))
            &&& exists|dotted: Seq<char>, own: Seq<char>|
                {
                    &&& #[trigger] is_subdirectory(
                        dotted,
                        config::home_dir(variables),
                        ".config"@,
                    )
                    &&& #[trigger] is_subdirectory(own, dotted, "herdr-spreader"@)
                    &&& are_configs_in(all.subrange(b, b + 2), own)
                }
        }),
{
    let all = config::config_candidates(variables);
    let plugin = env::lookup(variables, "HERDR_PLUGIN_CONFIG_DIR"@);
    let xdg = env::lookup(variables, "XDG_CONFIG_HOME"@);
    let home = config::home_dir(variables);
    lemma_home(variables);
    let a: int = if plugin is Some {
        2
    } else {
        0
    };
    let b: int = if xdg is Some {
        a + 2
    } else {
        a
    };
    let names = config::config_names();
    if plugin is Some {
        lemma_configs_in(plugin->0);
        assert(all.subrange(0, 2) =~= config::inside(plugin->0, names));
    }
    if xdg is Some {
        let own = path::joined_path(xdg->0, "herdr-spreader"@);
        lemma_leads_from(xdg->0, "herdr-spreader"@);
        lemma_configs_in(own);
        assert(all.subrange(a, a + 2) =~= config::inside(own, names));
        assert(is_subdirectory(own, xdg->0, "herdr-spreader"@));
    }
    let dotted = path::joined_path(home, ".config"@);
    let own = path::joined_path(dotted, "herdr-spreader"@);
    lemma_leads_from(home, ".config"@);
    lemma_leads_from(dotted, "herdr-spreader"@);
    lemma_configs_in(own);
    assert(all.subrange(b, b + 2) =~= config::inside(own, names));
    assert(is_subdirectory(dotted, home, ".config"@));
    assert(is_subdirectory(own, dotted, "herdr-spreader"@));
}

} // verus!
