//! Expansion of include entries into a flat layout.
//!
//! A layout file may reference another layout file instead of spelling a
//! workspace out inline. Loading reads files, so it goes in steps: a step
//! either settles the result, or names one question about the disk. The
//! answers are kept in [`Facts`], and the next step starts over with one more
//! answer.
//!
//! Each file's paths are resolved against its own directory before its
//! workspaces are appended, so an included file can say `cwd: ./src` and mean
//! its own `src`. The file that loading starts with resolves its paths against
//! a directory of the caller's choice.

use vstd::prelude::*;

use crate::config;
use crate::config::{
    config_file_names, expand_root_path, push_inside, resolve_workspace_paths, Include, SpreadFile,
    SpreadSource, Workspace, WorkspaceEntry,
};
use crate::env::EnvMap;
use crate::path;
use crate::path::{holds_path, normalize_path, parent};
use crate::text;
use crate::text::{decimal, join_texts, same_text};
use crate::validate;
use crate::validate::{error, validate, ValidationFinding};

pub mod laws;

verus! {

/// How many files may be nested in the one that loading starts with.
///
/// A cycle is recognised as such; this bounds chains that are no cycle, so it
/// can be generous.
pub const MAX_INCLUDE_DEPTH: usize = 16;

/// What became of reading and parsing a file.
#[derive(Debug, Clone, PartialEq)]
pub enum SourceOutcome {
    Parsed(SpreadSource),
    /// The file could not be read, with the reason.
    ReadFailed(String),
    /// The file could not be parsed, with the parser's message.
    ParseFailed(String),
}

/// The mathematical value of a [`SourceOutcome`].
pub enum SourceOutcomeView {
    Parsed(Seq<config::WorkspaceEntryView>),
    ReadFailed(Seq<char>),
    ParseFailed(Seq<char>),
}

impl DeepView for SourceOutcome {
    type V = SourceOutcomeView;

    open spec fn deep_view(&self) -> SourceOutcomeView {
        match self {
            SourceOutcome::Parsed(source) => SourceOutcomeView::Parsed(source.deep_view()),
            SourceOutcome::ReadFailed(message) => SourceOutcomeView::ReadFailed(message@),
            SourceOutcome::ParseFailed(message) => SourceOutcomeView::ParseFailed(message@),
        }
    }
}

/// A question about the disk.
#[derive(Debug, Clone, PartialEq)]
pub enum Question {
    /// One name for all spellings of a path, or the path itself if it has none.
    Identity(String),
    /// What reading and parsing a file gives.
    Source(String),
    /// Whether there is a file at a path.
    IsFile(String),
    /// Whether there is a directory at a path.
    IsDir(String),
}

/// The mathematical value of a [`Question`].
pub enum QuestionView {
    Identity(Seq<char>),
    Source(Seq<char>),
    IsFile(Seq<char>),
    IsDir(Seq<char>),
}

impl DeepView for Question {
    type V = QuestionView;

    open spec fn deep_view(&self) -> QuestionView {
        match self {
            Question::Identity(path) => QuestionView::Identity(path@),
            Question::Source(path) => QuestionView::Source(path@),
            Question::IsFile(path) => QuestionView::IsFile(path@),
            Question::IsDir(path) => QuestionView::IsDir(path@),
        }
    }
}

/// What is known of a disk, path by path.
#[verifier::ext_equal]
pub struct Disk {
    pub identities: Map<Seq<char>, Seq<char>>,
    pub sources: Map<Seq<char>, SourceOutcomeView>,
    pub files: Map<Seq<char>, bool>,
    pub dirs: Map<Seq<char>, bool>,
}

/// The question has an answer.
pub open spec fn answered(disk: Disk, question: QuestionView) -> bool {
    match question {
        QuestionView::Identity(path) => disk.identities.contains_key(path),
        QuestionView::Source(path) => disk.sources.contains_key(path),
        QuestionView::IsFile(path) => disk.files.contains_key(path),
        QuestionView::IsDir(path) => disk.dirs.contains_key(path),
    }
}

/// The newest value of each key.
pub open spec fn table<V>(entries: Seq<(Seq<char>, V)>) -> Map<Seq<char>, V>
    decreases entries.len(),
{
    if entries.len() == 0 {
        Map::empty()
    } else {
        table(entries.drop_last()).insert(entries.last().0, entries.last().1)
    }
}

/// The newest value of `key`.
fn find<'a, V: DeepView>(entries: &'a Vec<(String, V)>, key: &str) -> (value: Option<&'a V>)
    ensures
        match value {
            Some(value) => {
                &&& table(entries.deep_view()).contains_key(key@)
                &&& table(entries.deep_view())[key@] == value.deep_view()
            },
            None => !table(entries.deep_view()).contains_key(key@),
        },
{
    let ghost all = entries.deep_view();
    let mut i: usize = entries.len();
    assert(all.take(i as int) == all);
    while i > 0
        invariant
            i <= entries.len(),
            all == entries.deep_view(),
            table(all).contains_key(key@) == table(all.take(i as int)).contains_key(key@),
            table(all).contains_key(key@) ==> table(all)[key@] == table(all.take(i as int))[key@],
        decreases i,
    {
        proof {
            assert(all.take(i as int).drop_last() == all.take(i - 1));
            assert(all.take(i as int).last() == all[i - 1]);
            assert(all[i - 1] == (entries[i - 1].0@, entries[i - 1].1.deep_view()));
        }
        i = i - 1;
        if same_text(entries[i].0.as_str(), key) {
            return Some(&entries[i].1);
        }
    }
    None
}

/// The answers that are known so far.
#[derive(Debug)]
pub struct Facts {
    identities: Vec<(String, String)>,
    sources: Vec<(String, SourceOutcome)>,
    files: Vec<(String, bool)>,
    dirs: Vec<(String, bool)>,
}

impl DeepView for Facts {
    type V = Disk;

    closed spec fn deep_view(&self) -> Disk {
        Disk {
            identities: table(self.identities.deep_view()),
            sources: table(self.sources.deep_view()),
            files: table(self.files.deep_view()),
            dirs: table(self.dirs.deep_view()),
        }
    }
}

impl Facts {
    /// No answers.
    pub fn new() -> (facts: Facts)
        ensures
            facts.deep_view() == (Disk {
                identities: Map::empty(),
                sources: Map::empty(),
                files: Map::empty(),
                dirs: Map::empty(),
            }),
    {
        let facts: Facts = Facts {
            identities: Vec::new(),
            sources: Vec::new(),
            files: Vec::new(),
            dirs: Vec::new(),
        };
        proof {
            assert(facts.identities.deep_view() =~= Seq::<(Seq<char>, Seq<char>)>::empty());
            assert(facts.sources.deep_view() =~= Seq::<(Seq<char>, SourceOutcomeView)>::empty());
            assert(facts.files.deep_view() =~= Seq::<(Seq<char>, bool)>::empty());
            assert(facts.dirs.deep_view() =~= Seq::<(Seq<char>, bool)>::empty());
        }
        facts
    }

    /// Keeps the name that all spellings of `path` share.
    pub fn record_identity(&mut self, path: String, identity: String)
        ensures
            final(self).deep_view() == (Disk {
                identities: old(self).deep_view().identities.insert(path@, identity@),
                ..old(self).deep_view()
            }),
    {
        let ghost earlier = self.identities.deep_view();
        self.identities.push((path, identity));
        assert(self.identities.deep_view() =~= earlier.push((path@, identity@)));
        assert(self.identities.deep_view().drop_last() == earlier);
    }

    /// Keeps what reading and parsing `path` gave.
    pub fn record_source(&mut self, path: String, outcome: SourceOutcome)
        ensures
            final(self).deep_view() == (Disk {
                sources: old(self).deep_view().sources.insert(path@, outcome.deep_view()),
                ..old(self).deep_view()
            }),
    {
        let ghost earlier = self.sources.deep_view();
        self.sources.push((path, outcome));
        assert(self.sources.deep_view() =~= earlier.push((path@, outcome.deep_view())));
        assert(self.sources.deep_view().drop_last() == earlier);
    }

    /// Keeps whether there is a file at `path`.
    pub fn record_file(&mut self, path: String, yes: bool)
        ensures
            final(self).deep_view() == (Disk {
                files: old(self).deep_view().files.insert(path@, yes),
                ..old(self).deep_view()
            }),
    {
        let ghost earlier = self.files.deep_view();
        self.files.push((path, yes));
        assert(self.files.deep_view() =~= earlier.push((path@, yes)));
        assert(self.files.deep_view().drop_last() == earlier);
    }

    /// Keeps whether there is a directory at `path`.
    pub fn record_dir(&mut self, path: String, yes: bool)
        ensures
            final(self).deep_view() == (Disk {
                dirs: old(self).deep_view().dirs.insert(path@, yes),
                ..old(self).deep_view()
            }),
    {
        let ghost earlier = self.dirs.deep_view();
        self.dirs.push((path, yes));
        assert(self.dirs.deep_view() =~= earlier.push((path@, yes)));
        assert(self.dirs.deep_view().drop_last() == earlier);
    }

    fn identity(&self, path: &str) -> (identity: Option<&String>)
        ensures
            match identity {
                Some(identity) => {
                    &&& self.deep_view().identities.contains_key(path@)
                    &&& self.deep_view().identities[path@] == identity@
                },
                None => !self.deep_view().identities.contains_key(path@),
            },
    {
        find(&self.identities, path)
    }

    fn source(&self, path: &str) -> (outcome: Option<&SourceOutcome>)
        ensures
            match outcome {
                Some(outcome) => {
                    &&& self.deep_view().sources.contains_key(path@)
                    &&& self.deep_view().sources[path@] == outcome.deep_view()
                },
                None => !self.deep_view().sources.contains_key(path@),
            },
    {
        find(&self.sources, path)
    }

    fn is_file(&self, path: &str) -> (yes: Option<&bool>)
        ensures
            match yes {
                Some(yes) => {
                    &&& self.deep_view().files.contains_key(path@)
                    &&& self.deep_view().files[path@] == *yes
                },
                None => !self.deep_view().files.contains_key(path@),
            },
    {
        find(&self.files, path)
    }

    fn is_dir(&self, path: &str) -> (yes: Option<&bool>)
        ensures
            match yes {
                Some(yes) => {
                    &&& self.deep_view().dirs.contains_key(path@)
                    &&& self.deep_view().dirs[path@] == *yes
                },
                None => !self.deep_view().dirs.contains_key(path@),
            },
    {
        find(&self.dirs, path)
    }
}

/// The names of a layout file that a repository carries, best first. The dotted
/// names come first, so that it can carry its layout as a hidden file.
pub open spec fn directory_names() -> Seq<Seq<char>> {
    seq![
        ".herdr-spreader.yaml"@,
        ".herdr-spreader.yml"@,
        "herdr-spreader.yaml"@,
        "herdr-spreader.yml"@,
    ]
}

/// The names a layout file may have in a directory that is included, best
/// first: those of a layout that a repository carries, and those of a
/// configuration.
pub open spec fn layout_names() -> Seq<Seq<char>> {
    directory_names() + config::config_names()
}

/// The names of a layout file that a repository carries, best first.
pub fn directory_include_file_names() -> (names: Vec<String>)
    ensures
        names.deep_view() == directory_names(),
{
    let names: Vec<String> = vec![
        ".herdr-spreader.yaml".to_string(),
        ".herdr-spreader.yml".to_string(),
        "herdr-spreader.yaml".to_string(),
        "herdr-spreader.yml".to_string(),
    ];
    assert(names.deep_view() =~= directory_names());
    names
}

/// The names a layout file may have in a directory that is included, best
/// first.
fn layout_file_names() -> (names: Vec<String>)
    ensures
        names.deep_view() == layout_names(),
{
    let mut names: Vec<String> = directory_include_file_names();
    let mut more: Vec<String> = config_file_names();
    names.append(&mut more);
    assert(names.deep_view() =~= layout_names());
    names
}

/// The path that an include names, seen from the directory of the file that
/// includes it.
pub open spec fn target_path(
    raw: Seq<char>,
    dir: Seq<char>,
    variables: Seq<(Seq<char>, Seq<char>)>,
) -> Seq<char> {
    path::normalized(path::joined_path(dir, config::expanded(raw, variables)))
}

/// Every path an include might resolve to, best first: the path it names, and
/// the well-known names in it if that is a directory.
pub open spec fn target_candidates(
    raw: Seq<char>,
    dir: Seq<char>,
    variables: Seq<(Seq<char>, Seq<char>)>,
) -> Seq<Seq<char>> {
    let target = target_path(raw, dir, variables);
    seq![target] + config::inside(target, layout_names())
}

/// Every path an include might resolve to, best first.
#[must_use]
pub fn include_candidates(raw: &str, including_dir: &str, variables: &EnvMap) -> (candidates: Vec<
    String,
>)
    ensures
        candidates.deep_view() == target_candidates(raw@, including_dir@, variables.deep_view()),
{
    let target: String = normalize_path(
        expand_root_path(raw, variables, including_dir).as_str(),
    );
    let mut candidates: Vec<String> = vec![target.clone()];
    assert(candidates.deep_view() =~= seq![target@]);
    push_inside(&mut candidates, target.as_str(), &layout_file_names());
    candidates
}

/// What looking for the first candidate that is a file comes to.
pub enum Search {
    Found(Seq<char>),
    Nothing,
    /// Whether there is a file at this path is not known.
    Unknown(Seq<char>),
}

/// The first candidate that is a file.
pub open spec fn first_file(candidates: Seq<Seq<char>>, files: Map<Seq<char>, bool>) -> Search
    decreases candidates.len(),
{
    if candidates.len() == 0 {
        Search::Nothing
    } else if !files.contains_key(candidates[0]) {
        Search::Unknown(candidates[0])
    } else if files[candidates[0]] {
        Search::Found(candidates[0])
    } else {
        first_file(candidates.skip(1), files)
    }
}

/// Finds the file an [`Include`] names, `None` when nothing exists there.
///
/// # Errors
///
/// Returns the question that has to be answered first.
fn resolve_include_path(
    inc: &Include,
    including_dir: &str,
    variables: &EnvMap,
    facts: &Facts,
) -> (r: Result<Option<String>, Question>)
    ensures
        match first_file(
            target_candidates(inc.target@, including_dir@, variables.deep_view()),
            facts.deep_view().files,
        ) {
            Search::Found(target) => r is Ok && r->Ok_0.deep_view() == Some(target),
            Search::Nothing => r is Ok && r->Ok_0 is None,
            Search::Unknown(path) => r is Err && r->Err_0.deep_view() == QuestionView::IsFile(path),
        },
{
    let candidates: Vec<String> = include_candidates(inc.target.as_str(), including_dir, variables);
    let ghost all = candidates.deep_view();
    let ghost files = facts.deep_view().files;
    let mut i: usize = 0;
    assert(all.skip(0) == all);
    while i < candidates.len()
        invariant
            i <= candidates.len(),
            all == candidates.deep_view(),
            files == facts.deep_view().files,
            first_file(all, files) == first_file(all.skip(i as int), files),
            all == target_candidates(inc.target@, including_dir@, variables.deep_view()),
        decreases candidates.len() - i,
    {
        proof {
            assert(all.skip(i as int)[0] == candidates[i as int]@);
            assert(all.skip(i as int).skip(1) == all.skip(i + 1));
        }
        match facts.is_file(candidates[i].as_str()) {
            None => {
                return Err(Question::IsFile(candidates[i].clone()));
            },
            Some(yes) => {
                if *yes {
                    return Ok(Some(candidates[i].clone()));
                }
            },
        }
        i = i + 1;
    }
    Ok(None)
}

/// What loading a file comes to: workspaces and findings, each in order, or
/// the question that has to be answered first.
#[verifier::ext_equal]
pub struct Loaded {
    pub workspaces: Seq<config::WorkspaceView>,
    pub findings: Seq<validate::FindingView>,
    pub missing: Option<QuestionView>,
}

/// Nothing at all.
pub open spec fn nothing() -> Loaded {
    Loaded { workspaces: Seq::empty(), findings: Seq::empty(), missing: None }
}

/// Nothing but an error.
pub open spec fn refused(message: Seq<char>) -> Loaded {
    Loaded {
        workspaces: Seq::empty(),
        findings: seq![validate::error_view(message)],
        missing: None,
    }
}

/// Nothing but a question.
pub open spec fn unknown(question: QuestionView) -> Loaded {
    Loaded { workspaces: Seq::empty(), findings: Seq::empty(), missing: Some(question) }
}

/// One after the other. A question ends it.
pub open spec fn followed(a: Loaded, b: Loaded) -> Loaded {
    if a.missing is Some {
        a
    } else {
        Loaded {
            workspaces: a.workspaces + b.workspaces,
            findings: a.findings + b.findings,
            missing: b.missing,
        }
    }
}

/// The message for a chain that is too long.
pub open spec fn depth_text(path: Seq<char>) -> Seq<char> {
    "include chain deeper than "@ + text::decimal_text(MAX_INCLUDE_DEPTH as nat)
        + " files, giving up at "@ + path
}

/// The message for a file that includes itself.
pub open spec fn cycle_text(identity: Seq<char>, ancestors: Seq<Seq<char>>) -> Seq<char> {
    "include cycle: "@ + identity + " includes itself, via "@ + text::joined_text(
        ancestors,
        " -> "@,
    )
}

/// The message for a file that could not be read.
pub open spec fn read_text(path: Seq<char>, reason: Seq<char>) -> Seq<char> {
    "failed to read config file "@ + path + ": "@ + reason
}

/// The message for a file that could not be parsed.
pub open spec fn parse_text(path: Seq<char>, reason: Seq<char>) -> Seq<char> {
    "failed to parse config file "@ + path + ": "@ + reason
}

/// The message for an include that names nothing. Where it names a directory,
/// the message says what was looked for in it.
pub open spec fn missing_text(raw: Seq<char>, path: Seq<char>, is_dir: bool) -> Seq<char> {
    let hint = if is_dir {
        "; it is a directory containing none of: "@ + text::joined_text(layout_names(), ", "@)
    } else {
        Seq::empty()
    };
    "include target not found: "@ + raw + " (referenced by "@ + path + ")"@ + hint
}

/// What loading the file at `path` comes to, on a disk of which `disk` is
/// known. Its own workspaces resolve their paths against `base`. `room` is how
/// many more files may be nested, this one counted; `ancestors` are the
/// identities of the files that led here, outermost first.
pub open spec fn load_file(
    disk: Disk,
    variables: Seq<(Seq<char>, Seq<char>)>,
    path: Seq<char>,
    base: Seq<char>,
    room: nat,
    ancestors: Seq<Seq<char>>,
) -> Loaded
    decreases room, 0nat, 0int,
{
    if room == 0 {
        refused(depth_text(path))
    } else if !disk.identities.contains_key(path) {
        unknown(QuestionView::Identity(path))
    } else if path::holds(ancestors, disk.identities[path]) {
        refused(cycle_text(disk.identities[path], ancestors))
    } else if !disk.sources.contains_key(path) {
        unknown(QuestionView::Source(path))
    } else {
        match disk.sources[path] {
            SourceOutcomeView::ReadFailed(reason) => refused(read_text(path, reason)),
            SourceOutcomeView::ParseFailed(reason) => refused(parse_text(path, reason)),
            SourceOutcomeView::Parsed(entries) => load_entries(
                disk,
                variables,
                path,
                base,
                (room - 1) as nat,
                ancestors.push(disk.identities[path]),
                entries,
                entries.len() as int,
            ),
        }
    }
}

/// What the first `n` entries of the file at `path` come to, in order.
pub open spec fn load_entries(
    disk: Disk,
    variables: Seq<(Seq<char>, Seq<char>)>,
    path: Seq<char>,
    base: Seq<char>,
    room: nat,
    ancestors: Seq<Seq<char>>,
    entries: Seq<config::WorkspaceEntryView>,
    n: int,
) -> Loaded
    decreases room, 2nat, n,
{
    if n <= 0 {
        nothing()
    } else {
        followed(
            load_entries(disk, variables, path, base, room, ancestors, entries, n - 1),
            load_entry(disk, variables, path, base, room, ancestors, entries[n - 1]),
        )
    }
}

/// The directory of the file at `path`, from which its includes are seen.
pub open spec fn dir_of(path: Seq<char>, otherwise: Seq<char>) -> Seq<char> {
    match path::parent_of(path) {
        Some(dir) => dir,
        None => otherwise,
    }
}

/// What one entry of the file at `path` comes to: a workspace with its paths
/// resolved, or everything that another file comes to.
pub open spec fn load_entry(
    disk: Disk,
    variables: Seq<(Seq<char>, Seq<char>)>,
    path: Seq<char>,
    base: Seq<char>,
    room: nat,
    ancestors: Seq<Seq<char>>,
    entry: config::WorkspaceEntryView,
) -> Loaded
    decreases room, 1nat, 0int,
{
    let here = dir_of(path, base);
    match entry {
        config::WorkspaceEntryView::Inline(ws) => Loaded {
            workspaces: seq![config::resolved_workspace(ws, variables, base)],
            findings: Seq::empty(),
            missing: None,
        },
        config::WorkspaceEntryView::Include(inc) => {
            let candidates = target_candidates(inc.target, here, variables);
            match first_file(candidates, disk.files) {
                Search::Unknown(candidate) => unknown(QuestionView::IsFile(candidate)),
                Search::Found(target) => load_file(
                    disk,
                    variables,
                    target,
                    dir_of(target, here),
                    room,
                    ancestors,
                ),
                Search::Nothing => if inc.optional {
                    nothing()
                } else if !disk.dirs.contains_key(candidates[0]) {
                    unknown(QuestionView::IsDir(candidates[0]))
                } else {
                    refused(missing_text(inc.target, path, disk.dirs[candidates[0]]))
                },
            }
        },
    }
}

/// Everything that loading starts from: the file at `path`, its workspaces
/// resolved against `base`.
pub open spec fn load_all(
    disk: Disk,
    variables: Seq<(Seq<char>, Seq<char>)>,
    path: Seq<char>,
    base: Seq<char>,
) -> Loaded {
    load_file(disk, variables, path, base, (MAX_INCLUDE_DEPTH + 1) as nat, Seq::empty())
}

/// Adds an error.
fn push_error(findings: &mut Vec<ValidationFinding>, message: String)
    ensures
        final(findings).deep_view() == old(findings).deep_view() + refused(message@).findings,
{
    let ghost earlier = findings.deep_view();
    findings.push(error(message));
    assert(findings.deep_view() =~= earlier + refused(message@).findings);
}

fn depth_message(path: &str) -> (text: String)
    ensures
        text@ == depth_text(path@),
{
    let mut text: String = "include chain deeper than ".to_string();
    text.append(decimal(MAX_INCLUDE_DEPTH as u64).as_str());
    text.append(" files, giving up at ");
    text.append(path);
    text
}

fn cycle_message(identity: &str, ancestors: &Vec<String>) -> (text: String)
    ensures
        text@ == cycle_text(identity@, ancestors.deep_view()),
{
    let mut text: String = "include cycle: ".to_string();
    text.append(identity);
    text.append(" includes itself, via ");
    text.append(join_texts(ancestors, " -> ").as_str());
    text
}

fn read_message(path: &str, reason: &str) -> (text: String)
    ensures
        text@ == read_text(path@, reason@),
{
    let mut text: String = "failed to read config file ".to_string();
    text.append(path);
    text.append(": ");
    text.append(reason);
    text
}

fn parse_message(path: &str, reason: &str) -> (text: String)
    ensures
        text@ == parse_text(path@, reason@),
{
    let mut text: String = "failed to parse config file ".to_string();
    text.append(path);
    text.append(": ");
    text.append(reason);
    text
}

/// Names the files that were looked for, when an include pointed at a
/// directory that exists but holds no layout file.
fn directory_hint(is_dir: bool) -> (hint: String)
    ensures
        hint@ == if is_dir {
            "; it is a directory containing none of: "@ + text::joined_text(
                layout_names(),
                ", "@,
            )
        } else {
            Seq::empty()
        },
{
    if is_dir {
        let mut hint: String = "; it is a directory containing none of: ".to_string();
        hint.append(join_texts(&layout_file_names(), ", ").as_str());
        hint
    } else {
        String::new()
    }
}

fn missing_message(raw: &str, path: &str, is_dir: bool) -> (text: String)
    ensures
        text@ == missing_text(raw@, path@, is_dir),
{
    let mut text: String = "include target not found: ".to_string();
    text.append(raw);
    text.append(" (referenced by ");
    text.append(path);
    text.append(")");
    text.append(directory_hint(is_dir).as_str());
    text
}

/// The directory of the file at `path`.
fn directory_of(path: &str, otherwise: &str) -> (dir: String)
    ensures
        dir@ == dir_of(path@, otherwise@),
{
    match parent(path) {
        Some(dir) => dir,
        None => otherwise.to_string(),
    }
}

/// Reads one file, resolves its paths against `base`, and appends its
/// workspaces, recursing into every include it carries. Stops at the first
/// question that has no answer yet.
fn load_into(
    path: &str,
    base: &str,
    variables: &EnvMap,
    facts: &Facts,
    room: usize,
    ancestors: &mut Vec<String>,
    workspaces: &mut Vec<Workspace>,
    findings: &mut Vec<ValidationFinding>,
) -> (missing: Option<Question>)
    ensures
        ({
            let loaded = load_file(
                facts.deep_view(),
                variables.deep_view(),
                path@,
                base@,
                room as nat,
                old(ancestors).deep_view(),
            );
            &&& missing.deep_view() == loaded.missing
            &&& missing is None ==> {
                &&& final(ancestors).deep_view() == old(ancestors).deep_view()
                &&& final(workspaces).deep_view() == old(workspaces).deep_view()
                    + loaded.workspaces
                &&& final(findings).deep_view() == old(findings).deep_view() + loaded.findings
            }
        }),
    decreases room, 0int,
{
    let ghost disk = facts.deep_view();
    let ghost vars = variables.deep_view();
    let ghost led_here = ancestors.deep_view();
    let ghost start_workspaces = workspaces.deep_view();
    let ghost start_findings = findings.deep_view();
    assert(start_workspaces + Seq::<config::WorkspaceView>::empty() == start_workspaces);
    if room == 0 {
        push_error(findings, depth_message(path));
        return None;
    }
    let identity: String = match facts.identity(path) {
        Some(identity) => identity.clone(),
        None => {
            return Some(Question::Identity(path.to_string()));
        },
    };
    if holds_path(ancestors, identity.as_str()) {
        push_error(findings, cycle_message(identity.as_str(), ancestors));
        return None;
    }
    let outcome: &SourceOutcome = match facts.source(path) {
        Some(outcome) => outcome,
        None => {
            return Some(Question::Source(path.to_string()));
        },
    };
    let source: &SpreadSource = match outcome {
        SourceOutcome::Parsed(source) => source,
        SourceOutcome::ReadFailed(reason) => {
            push_error(findings, read_message(path, reason.as_str()));
            return None;
        },
        SourceOutcome::ParseFailed(reason) => {
            push_error(findings, parse_message(path, reason.as_str()));
            return None;
        },
    };
    ancestors.push(identity);
    let ghost deeper = ancestors.deep_view();
    assert(deeper =~= led_here.push(identity@));
    assert(deeper.drop_last() == led_here);
    let ghost entries = source.deep_view();
    let ghost left = (room - 1) as nat;
    let mut i: usize = 0;
    proof {
        let none = load_entries(disk, vars, path@, base@, left, deeper, entries, 0);
        assert(workspaces.deep_view() =~= start_workspaces + none.workspaces);
        assert(findings.deep_view() =~= start_findings + none.findings);
    }
    while i < source.workspaces.len()
        invariant
            i <= source.workspaces.len(),
            room > 0,
            left == room - 1,
            disk == facts.deep_view(),
            vars == variables.deep_view(),
            entries == source.deep_view(),
            led_here == old(ancestors).deep_view(),
            start_workspaces == old(workspaces).deep_view(),
            start_findings == old(findings).deep_view(),
            ancestors.deep_view() == deeper,
            deeper.len() > 0,
            deeper.drop_last() == led_here,
            load_file(disk, vars, path@, base@, room as nat, led_here) == load_entries(
                disk,
                vars,
                path@,
                base@,
                left,
                deeper,
                entries,
                entries.len() as int,
            ),
            ({
                let so_far = load_entries(
                    disk,
                    vars,
                    path@,
                    base@,
                    left,
                    deeper,
                    entries,
                    i as int,
                );
                &&& so_far.missing is None
                &&& workspaces.deep_view() == start_workspaces + so_far.workspaces
                &&& findings.deep_view() == start_findings + so_far.findings
            }),
        decreases source.workspaces.len() - i,
    {
        assert(entries[i as int] == source.workspaces[i as int].deep_view());
        let missing: Option<Question> = load_entry_into(
            &source.workspaces[i],
            path,
            base,
            variables,
            facts,
            room - 1,
            ancestors,
            workspaces,
            findings,
        );
        i = i + 1;
        proof {
            let earlier = load_entries(disk, vars, path@, base@, left, deeper, entries, i - 1);
            let added = load_entry(disk, vars, path@, base@, left, deeper, entries[i - 1]);
            let so_far = load_entries(disk, vars, path@, base@, left, deeper, entries, i as int);
            assert(so_far == followed(earlier, added));
            if missing is None {
                assert(workspaces.deep_view() =~= start_workspaces + so_far.workspaces);
                assert(findings.deep_view() =~= start_findings + so_far.findings);
            } else {
                lemma_question_stays(
                    disk,
                    vars,
                    path@,
                    base@,
                    left,
                    deeper,
                    entries,
                    i as int,
                    entries.len() as int,
                );
            }
        }
        if missing.is_some() {
            return missing;
        }
    }
    ancestors.pop();
    assert(ancestors.deep_view() =~= deeper.drop_last());
    None
}

/// A question that the first entries raise is the one that all of them raise.
proof fn lemma_question_stays(
    disk: Disk,
    variables: Seq<(Seq<char>, Seq<char>)>,
    path: Seq<char>,
    base: Seq<char>,
    room: nat,
    ancestors: Seq<Seq<char>>,
    entries: Seq<config::WorkspaceEntryView>,
    m: int,
    n: int,
)
    requires
        m <= n,
        load_entries(disk, variables, path, base, room, ancestors, entries, m).missing is Some,
    ensures
        load_entries(disk, variables, path, base, room, ancestors, entries, n) == load_entries(
            disk,
            variables,
            path,
            base,
            room,
            ancestors,
            entries,
            m,
        ),
    decreases n - m,
{
    if m < n {
        lemma_question_stays(
            disk,
            variables,
            path,
            base,
            room,
            ancestors,
            entries,
            m,
            n - 1,
        );
    }
}

/// Appends what one entry of the file at `path` comes to.
fn load_entry_into(
    entry: &WorkspaceEntry,
    path: &str,
    base: &str,
    variables: &EnvMap,
    facts: &Facts,
    room: usize,
    ancestors: &mut Vec<String>,
    workspaces: &mut Vec<Workspace>,
    findings: &mut Vec<ValidationFinding>,
) -> (missing: Option<Question>)
    ensures
        ({
            let loaded = load_entry(
                facts.deep_view(),
                variables.deep_view(),
                path@,
                base@,
                room as nat,
                old(ancestors).deep_view(),
                entry.deep_view(),
            );
            &&& missing.deep_view() == loaded.missing
            &&& missing is None ==> {
                &&& final(ancestors).deep_view() == old(ancestors).deep_view()
                &&& final(workspaces).deep_view() == old(workspaces).deep_view()
                    + loaded.workspaces
                &&& final(findings).deep_view() == old(findings).deep_view() + loaded.findings
            }
        }),
    decreases room, 1int,
{
    let ghost disk = facts.deep_view();
    let ghost start_workspaces = workspaces.deep_view();
    let ghost start_findings = findings.deep_view();
    assert(start_workspaces + Seq::<config::WorkspaceView>::empty() == start_workspaces);
    assert(start_findings + Seq::<validate::FindingView>::empty() == start_findings);
    match entry {
        WorkspaceEntry::Inline(ws) => {
            let resolved: Workspace = resolve_workspace_paths(ws, variables, base);
            workspaces.push(resolved);
            assert(workspaces.deep_view() =~= start_workspaces + seq![resolved.deep_view()]);
            None
        },
        WorkspaceEntry::Include(inc) => {
            let here: String = directory_of(path, base);
            let candidates: Vec<String> = include_candidates(
                inc.target.as_str(),
                here.as_str(),
                variables,
            );
            assert(candidates.deep_view()[0] == candidates[0]@);
            match resolve_include_path(inc, here.as_str(), variables, facts) {
                Err(question) => Some(question),
                Ok(Some(target)) => {
                    let target_base: String = directory_of(target.as_str(), here.as_str());
                    load_into(
                        target.as_str(),
                        target_base.as_str(),
                        variables,
                        facts,
                        room,
                        ancestors,
                        workspaces,
                        findings,
                    )
                },
                Ok(None) => {
                    if inc.optional {
                        None
                    } else {
                        match facts.is_dir(candidates[0].as_str()) {
                            None => Some(Question::IsDir(candidates[0].clone())),
                            Some(is_dir) => {
                                push_error(
                                    findings,
                                    missing_message(inc.target.as_str(), path, *is_dir),
                                );
                                None
                            },
                        }
                    }
                },
            }
        },
    }
}

/// One step of loading.
#[derive(Debug)]
pub enum LoadStep {
    /// The question to answer before the next step.
    Ask(Question),
    /// The result.
    Done(Result<SpreadFile, Vec<ValidationFinding>>),
}

/// What a flat layout and the findings on the way to it come to: the layout if
/// nothing is amiss, and otherwise everything that is, what loading found
/// before what validating found.
pub open spec fn settled(loaded: Loaded, r: Result<SpreadFile, Vec<ValidationFinding>>) -> bool {
    let findings = loaded.findings + validate::file_findings(loaded.workspaces);
    match r {
        Ok(file) => findings.len() == 0 && file.deep_view() == loaded.workspaces,
        Err(found) => findings.len() > 0 && found.deep_view() == findings,
    }
}

/// Loads the layout file at `path` and every file it includes, as one flat
/// layout, as far as the answers in `facts` go.
///
/// `base` is the directory relative paths in the file at `path` resolve
/// against. Included files resolve theirs against their own directory.
///
/// The result is an error when a file cannot be read or parsed, when an
/// include that is not optional names nothing, when includes form a cycle or
/// nest deeper than [`MAX_INCLUDE_DEPTH`], or when anything is amiss with the
/// flat layout.
pub fn load_flat(path: &str, base: &str, variables: &EnvMap, facts: &Facts) -> (step: LoadStep)
    ensures
        ({
            let loaded = load_all(facts.deep_view(), variables.deep_view(), path@, base@);
            match step {
                LoadStep::Ask(question) => loaded.missing == Some(question.deep_view()),
                LoadStep::Done(r) => loaded.missing is None && settled(loaded, r),
            }
        }),
{
    let mut workspaces: Vec<Workspace> = Vec::new();
    let mut findings: Vec<ValidationFinding> = Vec::new();
    let mut ancestors: Vec<String> = Vec::new();
    let ghost loaded = load_all(facts.deep_view(), variables.deep_view(), path@, base@);
    proof {
        assert(ancestors.deep_view() =~= Seq::<Seq<char>>::empty());
        assert(workspaces.deep_view() + loaded.workspaces =~= loaded.workspaces);
        assert(findings.deep_view() + loaded.findings =~= loaded.findings);
    }
    let missing: Option<Question> = load_into(
        path,
        base,
        variables,
        facts,
        MAX_INCLUDE_DEPTH + 1,
        &mut ancestors,
        &mut workspaces,
        &mut findings,
    );
    if let Some(question) = missing {
        return LoadStep::Ask(question);
    }
    let file: SpreadFile = SpreadFile { workspaces };
    let mut more: Vec<ValidationFinding> = validate(&file);
    let ghost on_the_way = findings.deep_view();
    let ghost amiss = more.deep_view();
    findings.append(&mut more);
    assert(findings.deep_view() =~= on_the_way + amiss);
    if findings.len() == 0 {
        LoadStep::Done(Ok(file))
    } else {
        LoadStep::Done(Err(findings))
    }
}

} // verus!
