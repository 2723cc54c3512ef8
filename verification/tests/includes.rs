use herdr_spreader::config::{
    Include, Pane, SpreadFile, SpreadSource, Tab, Workspace, WorkspaceEntry,
};
use herdr_spreader::engine::{plan_file, render_op};
use herdr_spreader::env::EnvMap;
use herdr_spreader::includes::{
    directory_include_file_names, include_candidates, load_flat, Facts, LoadStep, Question,
    SourceOutcome, MAX_INCLUDE_DEPTH,
};
use herdr_spreader::validate::{Severity, ValidationFinding};

/// A disk in memory: the files that exist with what they hold, and the
/// directories.
struct Disk {
    files: Vec<(String, SourceOutcome)>,
    dirs: Vec<String>,
    asked: Vec<Question>,
}

impl Disk {
    fn new() -> Disk {
        Disk {
            files: vec![],
            dirs: vec![],
            asked: vec![],
        }
    }

    fn write(&mut self, path: &str, entries: Vec<WorkspaceEntry>) {
        let source = SpreadSource {
            workspaces: entries,
        };
        self.files
            .push((path.to_string(), SourceOutcome::Parsed(source)));
    }

    fn create_dir(&mut self, path: &str) {
        self.dirs.push(path.to_string());
    }

    fn answer(&mut self, facts: &mut Facts, question: Question) {
        self.asked.push(question.clone());
        match question {
            Question::Identity(path) => facts.record_identity(path.clone(), path),
            Question::Source(path) => {
                let outcome = match self.files.iter().find(|(p, _)| *p == path) {
                    Some((_, outcome)) => outcome.clone(),
                    None => SourceOutcome::ReadFailed(
                        "No such file or directory (os error 2)".to_string(),
                    ),
                };
                facts.record_source(path, outcome);
            }
            Question::IsFile(path) => {
                let yes = self.files.iter().any(|(p, _)| *p == path);
                facts.record_file(path, yes);
            }
            Question::IsDir(path) => {
                let yes = self.dirs.contains(&path);
                facts.record_dir(path, yes);
            }
        }
    }

    fn load(&mut self, path: &str, base: &str) -> Result<SpreadFile, Vec<ValidationFinding>> {
        let env = env_with_home("/scratch");
        let mut facts = Facts::new();
        loop {
            match load_flat(path, base, &env, &facts) {
                LoadStep::Ask(question) => self.answer(&mut facts, question),
                LoadStep::Done(result) => return result,
            }
        }
    }
}

fn env_with_home(home: &str) -> EnvMap {
    let mut env = EnvMap::new();
    env.insert("HOME".to_string(), home.to_string());
    env
}

fn named(name: &str) -> WorkspaceEntry {
    WorkspaceEntry::Inline(Workspace {
        name: name.to_string(),
        ..Default::default()
    })
}

fn including(target: &str) -> WorkspaceEntry {
    WorkspaceEntry::Include(Include {
        target: target.to_string(),
        optional: false,
    })
}

fn including_if_present(target: &str) -> WorkspaceEntry {
    WorkspaceEntry::Include(Include {
        target: target.to_string(),
        optional: true,
    })
}

fn names(file: &SpreadFile) -> Vec<&str> {
    file.workspaces.iter().map(|w| w.name.as_str()).collect()
}

#[test]
fn should_splice_included_workspaces_in_place_keeping_file_order() {
    let mut disk = Disk::new();
    disk.write("/scratch/repo.yaml", vec![named("from-repo")]);
    disk.write(
        "/scratch/config.yaml",
        vec![named("before"), including("./repo.yaml"), named("after")],
    );

    let file = disk.load("/scratch/config.yaml", "/scratch").unwrap();

    assert_eq!(names(&file), vec!["before", "from-repo", "after"]);
}

#[test]
fn should_default_an_included_workspaces_root_to_the_included_files_directory() {
    let mut disk = Disk::new();
    disk.create_dir("/scratch/some-repo");
    disk.write(
        "/scratch/some-repo/.herdr-spreader.yaml",
        vec![WorkspaceEntry::Inline(Workspace {
            name: "repo".to_string(),
            tabs: vec![Tab {
                label: Some("src".to_string()),
                cwd: Some("./src".to_string()),
                panes: vec![Pane {
                    command: Some("ls".to_string()),
                    ..Default::default()
                }],
            }],
            ..Default::default()
        })],
    );
    disk.write("/scratch/config.yaml", vec![including("./some-repo")]);

    let file = disk
        .load("/scratch/config.yaml", "/scratch/invoked-from-here")
        .unwrap();

    assert_eq!(
        file.workspaces[0].root.as_deref(),
        Some("/scratch/some-repo")
    );
}

#[test]
fn should_resolve_the_root_files_own_paths_against_the_invocation_directory() {
    let mut disk = Disk::new();
    disk.write("/scratch/config.yaml", vec![named("plain")]);

    let file = disk.load("/scratch/config.yaml", "/scratch/cwd").unwrap();

    assert_eq!(file.workspaces[0].root.as_deref(), Some("/scratch/cwd"));
}

#[test]
fn should_resolve_a_relative_include_against_the_including_file_not_the_cwd() {
    let mut disk = Disk::new();
    disk.write("/scratch/layouts/inner.yaml", vec![named("inner")]);
    disk.write(
        "/scratch/layouts/outer.yaml",
        vec![including("./inner.yaml")],
    );

    let file = disk
        .load("/scratch/layouts/outer.yaml", "/scratch")
        .unwrap();

    assert_eq!(file.workspaces[0].name, "inner");
}

#[test]
fn should_report_a_missing_include_and_name_the_file_that_referenced_it() {
    let mut disk = Disk::new();
    disk.write("/scratch/config.yaml", vec![including("./not-here.yaml")]);

    let findings = disk.load("/scratch/config.yaml", "/scratch").unwrap_err();

    assert_eq!(findings.len(), 1);
    assert!(findings[0].message.contains("not-here.yaml"));
    assert!(findings[0].message.contains("config.yaml"));
    assert_eq!(findings[0].severity, Severity::Error);
}

#[test]
fn should_skip_a_missing_include_silently_when_it_is_marked_optional() {
    let mut disk = Disk::new();
    disk.write(
        "/scratch/config.yaml",
        vec![named("present"), including_if_present("./not-here.yaml")],
    );

    let file = disk.load("/scratch/config.yaml", "/scratch").unwrap();

    assert_eq!(file.workspaces.len(), 1);
    assert_eq!(file.workspaces[0].name, "present");
}

#[test]
fn should_reject_an_include_cycle_instead_of_recursing_forever() {
    let mut disk = Disk::new();
    disk.write("/scratch/a.yaml", vec![including("./b.yaml")]);
    disk.write("/scratch/b.yaml", vec![including("./a.yaml")]);

    let findings = disk.load("/scratch/a.yaml", "/scratch").unwrap_err();

    assert!(
        findings.iter().any(|f| f.message.contains("include cycle")),
        "expected a cycle finding, got {findings:?}"
    );
}

#[test]
fn should_give_up_on_an_include_chain_deeper_than_the_cap() {
    let mut disk = Disk::new();
    let links = MAX_INCLUDE_DEPTH + 2;
    for i in 0..links {
        disk.write(
            &format!("/scratch/f{i}.yaml"),
            vec![including(&format!("./f{}.yaml", i + 1))],
        );
    }
    disk.write(&format!("/scratch/f{links}.yaml"), vec![named("bottom")]);

    let findings = disk.load("/scratch/f0.yaml", "/scratch").unwrap_err();

    assert!(
        findings.iter().any(|f| f.message.contains("deeper than")),
        "expected a depth finding, got {findings:?}"
    );
}

#[test]
fn should_report_duplicate_workspace_names_across_included_files() {
    let mut disk = Disk::new();
    disk.write("/scratch/one.yaml", vec![named("dev")]);
    disk.write("/scratch/two.yaml", vec![named("dev")]);
    disk.write(
        "/scratch/config.yaml",
        vec![including("./one.yaml"), including("./two.yaml")],
    );

    let findings = disk.load("/scratch/config.yaml", "/scratch").unwrap_err();

    assert!(
        findings
            .iter()
            .any(|f| f.message.contains("duplicate workspace name")),
        "expected a duplicate-name finding, got {findings:?}"
    );
}

#[test]
fn should_report_a_parse_error_naming_the_included_file_not_the_root_file() {
    let mut disk = Disk::new();
    disk.files.push((
        "/scratch/broken.yaml".to_string(),
        SourceOutcome::ParseFailed("unknown field `nome`".to_string()),
    ));
    disk.write("/scratch/config.yaml", vec![including("./broken.yaml")]);

    let findings = disk.load("/scratch/config.yaml", "/scratch").unwrap_err();

    assert!(
        findings.iter().any(|f| f.message.contains("broken.yaml")),
        "expected the broken file to be named, got {findings:?}"
    );
    assert_eq!(
        findings[0].message,
        "failed to parse config file /scratch/broken.yaml: unknown field `nome`"
    );
}

#[test]
fn should_offer_directory_layout_file_names_as_include_candidates() {
    let env = env_with_home("/home/demo");
    let candidates = include_candidates("./repo", "/cfg", &env);

    assert_eq!(candidates[0], "/cfg/repo".to_string());
    assert!(candidates.contains(&"/cfg/repo/.herdr-spreader.yaml".to_string()));
    assert!(candidates.contains(&"/cfg/repo/config.yaml".to_string()));
}

#[test]
fn should_expand_a_tilde_in_an_include_path_against_home() {
    let env = env_with_home("/home/demo");
    let candidates = include_candidates("~/code/api", "/cfg", &env);

    assert_eq!(candidates[0], "/home/demo/code/api".to_string());
}

#[test]
fn candidates_come_in_a_fixed_order() {
    let candidates = include_candidates("./repo/.", "/cfg", &EnvMap::new());
    assert_eq!(
        candidates,
        vec![
            "/cfg/repo",
            "/cfg/repo/.herdr-spreader.yaml",
            "/cfg/repo/.herdr-spreader.yml",
            "/cfg/repo/herdr-spreader.yaml",
            "/cfg/repo/herdr-spreader.yml",
            "/cfg/repo/config.yaml",
            "/cfg/repo/config.yml",
        ]
    );
    assert_eq!(
        directory_include_file_names(),
        vec![
            ".herdr-spreader.yaml",
            ".herdr-spreader.yml",
            "herdr-spreader.yaml",
            "herdr-spreader.yml",
        ]
    );
}

#[test]
fn a_chain_as_deep_as_the_cap_is_followed() {
    let mut disk = Disk::new();
    // A `..` stays in the path, so each file is reached through all before it.
    let mut dir = "/scratch/d0".to_string();
    for i in 0..MAX_INCLUDE_DEPTH {
        disk.write(
            &format!("{dir}/f.yaml"),
            vec![including(&format!("../d{}/f.yaml", i + 1))],
        );
        dir = format!("{dir}/../d{}", i + 1);
    }
    disk.write(&format!("{dir}/f.yaml"), vec![named("bottom")]);

    let file = disk.load("/scratch/d0/f.yaml", "/elsewhere").unwrap();

    assert_eq!(names(&file), vec!["bottom"]);
    assert_eq!(file.workspaces[0].root.as_deref(), Some(dir.as_str()));
}

#[test]
fn should_plan_an_included_repository_layout_relative_to_that_repository() {
    let mut disk = Disk::new();
    disk.create_dir("/scratch/my-project");
    disk.write(
        "/scratch/my-project/.herdr-spreader.yaml",
        vec![WorkspaceEntry::Inline(Workspace {
            name: "my-project".to_string(),
            tabs: vec![Tab {
                label: Some("server".to_string()),
                cwd: None,
                panes: vec![Pane {
                    command: Some("just dev".to_string()),
                    ..Default::default()
                }],
            }],
            ..Default::default()
        })],
    );
    disk.write(
        "/scratch/config.yaml",
        vec![
            including("./my-project"),
            including_if_present("./not-cloned-here"),
        ],
    );

    let file = disk
        .load("/scratch/config.yaml", "/invoked/elsewhere")
        .unwrap();
    let plan: String = plan_file(&file)
        .iter()
        .map(|op| format!("{}\n", render_op(op)))
        .collect();

    let expected_cwd = "/scratch/my-project";
    assert!(
        plan.contains(expected_cwd),
        "expected the plan to be rooted at {expected_cwd}, got:\n{plan}"
    );
    assert!(
        plan.contains("just dev"),
        "expected the repository's command in the plan, got:\n{plan}"
    );
    assert!(
        !plan.contains("not-cloned-here"),
        "an optional missing include should vanish from the plan, got:\n{plan}"
    );
}

#[test]
fn a_cycle_is_named_with_all_its_files() {
    let mut disk = Disk::new();
    disk.write("/scratch/a.yaml", vec![including("b.yaml")]);
    disk.write("/scratch/b.yaml", vec![including("/scratch/a.yaml")]);

    let findings = disk.load("/scratch/a.yaml", "/scratch").unwrap_err();

    assert_eq!(
        findings,
        vec![ValidationFinding {
            severity: Severity::Error,
            message: "include cycle: /scratch/a.yaml includes itself, via /scratch/a.yaml -> /scratch/b.yaml"
                .to_string(),
        }]
    );
}

#[test]
fn a_deep_chain_is_given_up_at_the_first_file_too_many() {
    let mut disk = Disk::new();
    for i in 0..40 {
        disk.write(
            &format!("/scratch/f{i}.yaml"),
            vec![including(&format!("f{}.yaml", i + 1))],
        );
    }

    let findings = disk.load("/scratch/f0.yaml", "/scratch").unwrap_err();

    assert_eq!(findings.len(), 1);
    assert_eq!(
        findings[0].message,
        "include chain deeper than 16 files, giving up at /scratch/f17.yaml"
    );
}

#[test]
fn a_directory_without_a_layout_is_told_apart_from_nothing() {
    let mut disk = Disk::new();
    disk.create_dir("/scratch/repo");
    disk.write(
        "/scratch/config.yaml",
        vec![including("repo"), including("gone")],
    );

    let findings = disk.load("/scratch/config.yaml", "/scratch").unwrap_err();

    assert_eq!(
        findings[0].message,
        "include target not found: repo (referenced by /scratch/config.yaml); it is a directory containing none of: .herdr-spreader.yaml, .herdr-spreader.yml, herdr-spreader.yaml, herdr-spreader.yml, config.yaml, config.yml"
    );
    assert_eq!(
        findings[1].message,
        "include target not found: gone (referenced by /scratch/config.yaml)"
    );
}

#[test]
fn a_file_that_cannot_be_read_is_reported() {
    let mut disk = Disk::new();
    let findings = disk.load("/scratch/none.yaml", "/scratch").unwrap_err();
    assert_eq!(
        findings[0].message,
        "failed to read config file /scratch/none.yaml: No such file or directory (os error 2)"
    );
}

#[test]
fn no_question_is_asked_twice() {
    let mut disk = Disk::new();
    disk.write("/scratch/one.yaml", vec![named("one")]);
    disk.write(
        "/scratch/config.yaml",
        vec![
            including("one.yaml"),
            including_if_present("gone"),
            including_if_present("gone"),
            including("one.yaml"),
        ],
    );

    let findings = disk.load("/scratch/config.yaml", "/scratch").unwrap_err();

    assert_eq!(findings[0].message, "duplicate workspace name 'one'");
    for (i, question) in disk.asked.iter().enumerate() {
        assert!(!disk.asked[..i].contains(question), "{question:?}");
    }
}

#[test]
fn the_newest_answer_counts() {
    let mut facts = Facts::new();
    facts.record_identity("/a".to_string(), "/a".to_string());
    facts.record_source("/a".to_string(), SourceOutcome::ReadFailed("no".to_string()));
    facts.record_source(
        "/a".to_string(),
        SourceOutcome::Parsed(SpreadSource {
            workspaces: vec![named("late")],
        }),
    );
    match load_flat("/a", "/b", &EnvMap::new(), &facts) {
        LoadStep::Done(Ok(file)) => {
            assert_eq!(names(&file), vec!["late"]);
            assert_eq!(file.workspaces[0].root.as_deref(), Some("/b"));
        }
        other => panic!("expected a layout, got {other:?}"),
    }
}

#[test]
fn only_what_a_layout_names_is_asked_about() {
    let mut disk = Disk::new();
    disk.write("/scratch/stray.yaml", vec![named("stray")]);
    disk.write("/scratch/repo/herdr-spreader.yml", vec![named("repo")]);
    disk.write("/scratch/config.yaml", vec![including("repo")]);

    disk.load("/scratch/config.yaml", "/work").unwrap();

    for question in &disk.asked {
        let path = match question {
            Question::Identity(path)
            | Question::Source(path)
            | Question::IsFile(path)
            | Question::IsDir(path) => path,
        };
        assert!(
            path == "/scratch/config.yaml" || path.starts_with("/scratch/repo"),
            "{path}"
        );
    }
}

#[test]
fn a_cycle_is_found_however_its_path_is_written() {
    let mut disk = Disk::new();
    disk.write("/d//a.yaml", vec![including("a.yaml")]);
    disk.write("/d/a.yaml", vec![including("a.yaml")]);
    let findings = disk.load("/d//a.yaml", "/d").unwrap_err();
    assert_eq!(
        findings,
        vec![ValidationFinding {
            severity: Severity::Error,
            message: "include cycle: /d/a.yaml includes itself, via /d//a.yaml".to_string(),
        }]
    );
}

#[test]
fn a_cycle_is_refused_among_other_entries() {
    let mut disk = Disk::new();
    disk.write(
        "/d/a.yaml",
        vec![named("first"), including("b.yaml"), named("second")],
    );
    disk.write(
        "/d/b.yaml",
        vec![named("third"), including("a.yaml"), including("gone.yaml")],
    );
    let findings = disk.load("/d/a.yaml", "/d").unwrap_err();
    let messages: Vec<&str> = findings.iter().map(|f| f.message.as_str()).collect();
    assert_eq!(
        messages,
        vec![
            "include cycle: /d/a.yaml includes itself, via /d/a.yaml -> /d/b.yaml",
            "include target not found: gone.yaml (referenced by /d/b.yaml)",
        ]
    );
}

#[test]
fn a_deep_chain_is_refused_among_other_entries() {
    let mut disk = Disk::new();
    for i in 0..=MAX_INCLUDE_DEPTH {
        disk.write(
            &format!("/d/f{i}.yaml"),
            vec![
                named(&format!("before {i}")),
                including(&format!("f{}.yaml", i + 1)),
                named(&format!("after {i}")),
            ],
        );
    }
    let last = format!("/d/f{}.yaml", MAX_INCLUDE_DEPTH + 1);
    disk.write(&last, vec![named("too deep")]);
    let findings = disk.load("/d/f0.yaml", "/d").unwrap_err();
    assert_eq!(findings.len(), 1);
    assert_eq!(
        findings[0].message,
        format!("include chain deeper than {MAX_INCLUDE_DEPTH} files, giving up at {last}")
    );
}

#[test]
fn asking_ends_with_the_questions_that_the_disk_in_full_goes_through() {
    let mut disk = Disk::new();
    disk.create_dir("/d/repo");
    disk.write(
        "/d/a.yaml",
        vec![
            named("first"),
            including("b.yaml"),
            including("repo"),
            including_if_present("gone"),
        ],
    );
    disk.write("/d/b.yaml", vec![named("second")]);

    let findings = disk.load("/d/a.yaml", "/d").unwrap_err();

    assert!(findings[0].message.contains("include target not found: repo"));
    let identity = |path: &str| Question::Identity(path.to_string());
    let source = |path: &str| Question::Source(path.to_string());
    let mut expected = vec![
        identity("/d/a.yaml"),
        source("/d/a.yaml"),
        Question::IsFile("/d/b.yaml".to_string()),
        identity("/d/b.yaml"),
        source("/d/b.yaml"),
    ];
    let env = env_with_home("/scratch");
    for candidate in include_candidates("repo", "/d", &env) {
        expected.push(Question::IsFile(candidate));
    }
    expected.push(Question::IsDir("/d/repo".to_string()));
    for candidate in include_candidates("gone", "/d", &env) {
        expected.push(Question::IsFile(candidate));
    }
    assert_eq!(disk.asked, expected);
}
