use herdr_spreader::config::{Pane, Ratio, SpreadFile, Tab, WaitFor, Workspace};
use herdr_spreader::validate::{
    finding_line, validate, validate_config, validate_parsed, Severity, SourceFile,
    ValidationFinding,
};

#[test]
fn should_return_empty_findings_list_given_valid_minimal_config() {
    let file = SpreadFile {
        workspaces: vec![Workspace {
            name: "demo".to_string(),
            ..Default::default()
        }],
    };
    let findings = validate(&file);
    assert!(findings.is_empty());
}

#[test]
fn should_report_error_given_workspace_with_empty_name() {
    let file = SpreadFile {
        workspaces: vec![Workspace {
            name: String::new(),
            ..Default::default()
        }],
    };
    let findings = validate(&file);
    assert_eq!(findings.len(), 1);
    assert_eq!(findings[0].severity, Severity::Error);
    assert!(findings[0].message.contains("empty"));
}

#[test]
fn should_report_error_given_duplicate_workspace_names() {
    let file = SpreadFile {
        workspaces: vec![
            Workspace {
                name: "frontend".to_string(),
                ..Default::default()
            },
            Workspace {
                name: "frontend".to_string(),
                ..Default::default()
            },
        ],
    };
    let findings = validate(&file);
    let dup_findings: Vec<_> = findings
        .iter()
        .filter(|f| f.message.contains("duplicate"))
        .collect();
    assert_eq!(dup_findings.len(), 1);
    assert_eq!(dup_findings[0].severity, Severity::Error);
}

#[test]
fn should_report_error_given_ratio_equal_to_zero() {
    let file = SpreadFile {
        workspaces: vec![Workspace {
            name: "demo".to_string(),
            tabs: vec![Tab {
                panes: vec![Pane {
                    ratio: Ratio::new("0"),
                    ..Default::default()
                }],
                ..Default::default()
            }],
            ..Default::default()
        }],
    };
    let findings = validate(&file);
    assert_eq!(findings.len(), 1);
    assert_eq!(findings[0].severity, Severity::Error);
}

#[test]
fn should_report_error_given_ratio_equal_to_one() {
    let file = SpreadFile {
        workspaces: vec![Workspace {
            name: "demo".to_string(),
            tabs: vec![Tab {
                panes: vec![Pane {
                    ratio: Ratio::new("1"),
                    ..Default::default()
                }],
                ..Default::default()
            }],
            ..Default::default()
        }],
    };
    let findings = validate(&file);
    assert_eq!(findings.len(), 1);
    assert_eq!(findings[0].severity, Severity::Error);
}

#[test]
fn should_report_error_given_negative_ratio() {
    let file = SpreadFile {
        workspaces: vec![Workspace {
            name: "demo".to_string(),
            tabs: vec![Tab {
                panes: vec![Pane {
                    ratio: Ratio::new("-0.5"),
                    ..Default::default()
                }],
                ..Default::default()
            }],
            ..Default::default()
        }],
    };
    let findings = validate(&file);
    assert_eq!(findings.len(), 1);
    assert_eq!(findings[0].severity, Severity::Error);
}

#[test]
fn should_skip_ratio_check_when_ratio_is_none() {
    let file = SpreadFile {
        workspaces: vec![Workspace {
            name: "demo".to_string(),
            tabs: vec![Tab {
                panes: vec![Pane {
                    ratio: None,
                    ..Default::default()
                }],
                ..Default::default()
            }],
            ..Default::default()
        }],
    };
    let findings = validate(&file);
    assert!(findings.is_empty());
}

#[test]
fn should_accept_valid_ratio_between_zero_and_one() {
    let file = SpreadFile {
        workspaces: vec![Workspace {
            name: "demo".to_string(),
            tabs: vec![Tab {
                panes: vec![Pane {
                    ratio: Ratio::new("0.5"),
                    ..Default::default()
                }],
                ..Default::default()
            }],
            ..Default::default()
        }],
    };
    let findings = validate(&file);
    assert!(findings.is_empty());
}

#[test]
fn should_report_warning_given_multiple_focused_workspaces() {
    let file = SpreadFile {
        workspaces: vec![
            Workspace {
                name: "alpha".to_string(),
                focus: true,
                ..Default::default()
            },
            Workspace {
                name: "beta".to_string(),
                focus: false,
                ..Default::default()
            },
            Workspace {
                name: "gamma".to_string(),
                focus: true,
                ..Default::default()
            },
        ],
    };
    let findings = validate(&file);
    let focus_warnings: Vec<_> = findings
        .iter()
        .filter(|f| f.severity == Severity::Warning && f.message.contains("focus"))
        .collect();
    assert_eq!(focus_warnings.len(), 1);
}

#[test]
fn should_not_report_warning_given_exactly_one_focused_workspace() {
    let file = SpreadFile {
        workspaces: vec![
            Workspace {
                name: "alpha".to_string(),
                focus: true,
                ..Default::default()
            },
            Workspace {
                name: "beta".to_string(),
                ..Default::default()
            },
        ],
    };
    let findings = validate(&file);
    let focus_warnings: Vec<_> = findings
        .iter()
        .filter(|f| f.message.contains("focus"))
        .collect();
    assert!(focus_warnings.is_empty());
}

#[test]
fn should_not_report_warning_given_zero_focused_workspaces() {
    let file = SpreadFile {
        workspaces: vec![
            Workspace {
                name: "alpha".to_string(),
                ..Default::default()
            },
            Workspace {
                name: "beta".to_string(),
                ..Default::default()
            },
        ],
    };
    let findings = validate(&file);
    let focus_warnings: Vec<_> = findings
        .iter()
        .filter(|f| f.message.contains("focus"))
        .collect();
    assert!(focus_warnings.is_empty());
}

#[test]
fn should_report_warning_given_tab_with_no_panes() {
    let file = SpreadFile {
        workspaces: vec![Workspace {
            name: "demo".to_string(),
            tabs: vec![Tab {
                label: None,
                panes: vec![],
                ..Default::default()
            }],
            ..Default::default()
        }],
    };
    let findings = validate(&file);
    let tab_warnings: Vec<_> = findings
        .iter()
        .filter(|f| f.severity == Severity::Warning && f.message.contains("no panes"))
        .collect();
    assert_eq!(tab_warnings.len(), 1);
}

#[test]
fn should_not_report_warning_given_tab_with_panes() {
    let file = SpreadFile {
        workspaces: vec![Workspace {
            name: "demo".to_string(),
            tabs: vec![Tab {
                label: None,
                panes: vec![Pane {
                    ..Default::default()
                }],
                ..Default::default()
            }],
            ..Default::default()
        }],
    };
    let findings = validate(&file);
    let tab_warnings: Vec<_> = findings
        .iter()
        .filter(|f| f.message.contains("no panes"))
        .collect();
    assert!(tab_warnings.is_empty());
}

#[test]
fn should_report_error_given_pane_with_wait_for_but_no_command() {
    let file = SpreadFile {
        workspaces: vec![Workspace {
            name: "demo".to_string(),
            tabs: vec![Tab {
                panes: vec![Pane {
                    command: None,
                    wait_for: Some(WaitFor {
                        pattern: "ready".to_string(),
                        timeout_ms: None,
                    }),
                    ..Default::default()
                }],
                ..Default::default()
            }],
            ..Default::default()
        }],
    };
    let findings = validate(&file);
    let wait_findings: Vec<_> = findings
        .iter()
        .filter(|f| f.message.contains("wait_for"))
        .collect();
    assert_eq!(wait_findings.len(), 1);
    assert_eq!(wait_findings[0].severity, Severity::Error);
}

#[test]
fn should_not_report_wait_for_error_given_pane_with_both_command_and_wait_for() {
    let file = SpreadFile {
        workspaces: vec![Workspace {
            name: "demo".to_string(),
            tabs: vec![Tab {
                panes: vec![Pane {
                    command: Some("cargo run".to_string()),
                    wait_for: Some(WaitFor {
                        pattern: "ready".to_string(),
                        timeout_ms: None,
                    }),
                    ..Default::default()
                }],
                ..Default::default()
            }],
            ..Default::default()
        }],
    };
    let findings = validate(&file);
    let wait_findings: Vec<_> = findings
        .iter()
        .filter(|f| f.message.contains("wait_for"))
        .collect();
    assert!(wait_findings.is_empty());
}

fn pane_with_id(id: &str) -> Pane {
    Pane {
        id: Some(id.to_string()),
        ..Default::default()
    }
}

fn pane_from(from: &str) -> Pane {
    Pane {
        from: Some(from.to_string()),
        ..Default::default()
    }
}

fn single_tab_file(panes: Vec<Pane>) -> SpreadFile {
    SpreadFile {
        workspaces: vec![Workspace {
            name: "demo".to_string(),
            tabs: vec![Tab {
                label: Some("main".to_string()),
                panes,
                ..Default::default()
            }],
            ..Default::default()
        }],
    }
}

#[test]
fn should_return_empty_findings_given_branching_layout_with_valid_from_references() {
    let file = single_tab_file(vec![
        pane_with_id("editor"),
        Pane {
            id: Some("agent".to_string()),
            from: Some("editor".to_string()),
            ..Default::default()
        },
        pane_from("editor"),
    ]);
    let findings = validate(&file);
    assert!(findings.is_empty(), "unexpected findings: {findings:?}");
}

#[test]
fn should_report_error_given_duplicate_pane_ids_in_same_tab() {
    let file = single_tab_file(vec![pane_with_id("editor"), pane_with_id("editor")]);
    let findings = validate(&file);
    assert_eq!(findings.len(), 1);
    assert_eq!(findings[0].severity, Severity::Error);
    assert!(findings[0].message.contains("duplicate pane id 'editor'"));
}

#[test]
fn should_not_report_error_given_same_pane_id_reused_in_different_tabs() {
    let file = SpreadFile {
        workspaces: vec![Workspace {
            name: "demo".to_string(),
            tabs: vec![
                Tab {
                    panes: vec![pane_with_id("editor")],
                    ..Default::default()
                },
                Tab {
                    panes: vec![pane_with_id("editor")],
                    ..Default::default()
                },
            ],
            ..Default::default()
        }],
    };
    let findings = validate(&file);
    assert!(findings.is_empty(), "unexpected findings: {findings:?}");
}

#[test]
fn should_report_error_given_empty_pane_id() {
    let file = single_tab_file(vec![pane_with_id("")]);
    let findings = validate(&file);
    assert_eq!(findings.len(), 1);
    assert_eq!(findings[0].severity, Severity::Error);
    assert!(findings[0].message.contains("must not be empty"));
}

#[test]
fn should_report_error_given_from_on_the_first_pane_of_a_tab() {
    let file = single_tab_file(vec![pane_from("editor"), pane_with_id("editor")]);
    let findings = validate(&file);
    let from_findings: Vec<_> = findings
        .iter()
        .filter(|f| f.message.contains("root pane"))
        .collect();
    assert_eq!(from_findings.len(), 1);
    assert_eq!(from_findings[0].severity, Severity::Error);
}

#[test]
fn should_report_error_given_from_referencing_a_pane_declared_later() {
    let file = single_tab_file(vec![
        pane_with_id("editor"),
        pane_from("git"),
        pane_with_id("git"),
    ]);
    let findings = validate(&file);
    assert_eq!(findings.len(), 1);
    assert_eq!(findings[0].severity, Severity::Error);
    assert!(findings[0].message.contains("earlier"));
}

#[test]
fn should_report_error_given_from_referencing_the_panes_own_id() {
    let file = single_tab_file(vec![
        pane_with_id("editor"),
        Pane {
            id: Some("agent".to_string()),
            from: Some("agent".to_string()),
            ..Default::default()
        },
    ]);
    let findings = validate(&file);
    assert_eq!(findings.len(), 1);
    assert_eq!(findings[0].severity, Severity::Error);
    assert!(findings[0].message.contains("earlier"));
}

#[test]
fn should_report_error_given_from_referencing_an_unknown_id() {
    let file = single_tab_file(vec![pane_with_id("editor"), pane_from("editr")]);
    let findings = validate(&file);
    assert_eq!(findings.len(), 1);
    assert_eq!(findings[0].severity, Severity::Error);
    assert!(
        findings[0]
            .message
            .contains("no pane in this tab declares that id")
    );
}

#[test]
fn should_report_error_given_from_referencing_an_id_declared_in_another_tab() {
    let file = SpreadFile {
        workspaces: vec![Workspace {
            name: "demo".to_string(),
            tabs: vec![
                Tab {
                    panes: vec![pane_with_id("editor")],
                    ..Default::default()
                },
                Tab {
                    panes: vec![Pane::default(), pane_from("editor")],
                    ..Default::default()
                },
            ],
            ..Default::default()
        }],
    };
    let findings = validate(&file);
    assert_eq!(findings.len(), 1);
    assert_eq!(findings[0].severity, Severity::Error);
    assert!(
        findings[0]
            .message
            .contains("no pane in this tab declares that id")
    );
}

/// A parser that is handed one text and gives one answer for it.
fn parsing(
    text: &str,
    answer: Result<SpreadFile, String>,
) -> impl FnOnce(&str) -> Result<SpreadFile, String> + '_ {
    move |given| {
        assert_eq!(given, text);
        answer
    }
}

#[test]
fn should_return_ok_with_spread_file_given_clean_yaml() {
    let source = SourceFile {
        yaml: "workspaces:\n  - name: demo\n",
        path: "config.yaml",
    };
    let parsed = SpreadFile {
        workspaces: vec![Workspace {
            name: "demo".to_string(),
            ..Default::default()
        }],
    };
    let result = validate_config(source, parsing(source.yaml, Ok(parsed)));
    assert!(result.is_ok());
    assert_eq!(result.unwrap().workspaces[0].name, "demo");
}

#[test]
fn should_return_err_with_parse_finding_given_malformed_yaml() {
    let source = SourceFile {
        yaml: "name: demo\ntabs: []",
        path: "/cfg/spread.yaml",
    };
    let message = "unknown field `name`, expected `workspaces`".to_string();
    let result = validate_config(source, parsing(source.yaml, Err(message)));
    let err = result.unwrap_err();
    assert_eq!(err.len(), 1);
    assert_eq!(err[0].severity, Severity::Error);
    assert!(err[0].message.contains("/cfg/spread.yaml"));
    assert!(err[0].message.to_lowercase().contains("parse"));
}

#[test]
fn should_return_err_with_findings_given_duplicate_workspace_names() {
    let source = SourceFile {
        yaml: "workspaces:\n  - name: frontend\n  - name: frontend\n",
        path: "c.yaml",
    };
    let frontend = Workspace {
        name: "frontend".to_string(),
        ..Default::default()
    };
    let parsed = SpreadFile {
        workspaces: vec![frontend.clone(), frontend],
    };
    let result = validate_config(source, parsing(source.yaml, Ok(parsed)));
    let err = result.unwrap_err();
    assert!(
        err.iter()
            .any(|f| f.message.contains("duplicate") && f.severity == Severity::Error)
    );
}

#[test]
fn should_return_err_given_warning_only_config_with_empty_tab() {
    let source = SourceFile {
        yaml: "workspaces:\n  - name: demo\n    tabs:\n      - panes: []\n",
        path: "c.yaml",
    };
    let parsed = SpreadFile {
        workspaces: vec![Workspace {
            name: "demo".to_string(),
            tabs: vec![Tab::default()],
            ..Default::default()
        }],
    };
    let result = validate_config(source, parsing(source.yaml, Ok(parsed)));
    let err = result.unwrap_err();
    assert!(
        err.iter()
            .any(|f| f.severity == Severity::Warning && f.message.contains("no panes"))
    );
}

#[test]
fn findings_are_shown_behind_their_severity() {
    let finding = |severity: Severity| ValidationFinding {
        severity,
        message: "look".to_string(),
    };
    assert_eq!(finding_line(&finding(Severity::Error)), "[ERROR] look");
    assert_eq!(finding_line(&finding(Severity::Warning)), "[WARNING] look");
}

#[test]
fn everything_amiss_is_found_in_order() {
    let file = SpreadFile {
        workspaces: vec![
            Workspace {
                name: String::new(),
                focus: true,
                tabs: vec![
                    Tab::default(),
                    Tab {
                        label: Some("main".to_string()),
                        panes: vec![
                            Pane {
                                id: Some("a".to_string()),
                                from: Some("a".to_string()),
                                ratio: Ratio::new("1.5"),
                                ..Default::default()
                            },
                            Pane {
                                id: Some("a".to_string()),
                                from: Some("b".to_string()),
                                wait_for: Some(WaitFor {
                                    pattern: "x".to_string(),
                                    timeout_ms: None,
                                }),
                                ..Default::default()
                            },
                            Pane {
                                id: Some(String::new()),
                                from: Some(String::new()),
                                ..Default::default()
                            },
                        ],
                        ..Default::default()
                    },
                ],
                ..Default::default()
            },
            Workspace {
                name: String::new(),
                focus: true,
                ..Default::default()
            },
        ],
    };
    let lines: Vec<String> = validate(&file).iter().map(finding_line).collect();
    assert_eq!(
        lines,
        vec![
            "[ERROR] workspace name must not be empty",
            "[WARNING] tab '(unnamed)' in workspace '' has no panes",
            "[ERROR] the first pane in tab 'main' of workspace '' cannot use `from`: it is the tab's root pane, not a split",
            "[ERROR] pane `from: b` in tab 'main' of workspace '' is invalid: no pane in this tab declares that id",
            "[ERROR] duplicate pane id 'a' in tab 'main' of workspace ''",
            "[ERROR] pane `from: ` in tab 'main' of workspace '' is invalid: `from` may only reference a pane declared earlier in the same tab",
            "[ERROR] pane id in tab 'main' of workspace '' must not be empty",
            "[ERROR] pane ratio 1.5 in workspace '' must be between 0 and 1 (exclusive)",
            "[ERROR] wait_for was specified on a pane without a command in workspace ''",
            "[ERROR] workspace name must not be empty",
            "[ERROR] duplicate workspace name ''",
            "[WARNING] 2 workspaces have `focus: true`; only the last one will receive focus",
        ]
    );
}

#[test]
fn a_parse_error_is_reported_word_for_word() {
    let source = SourceFile {
        yaml: "",
        path: "/cfg/a.yaml",
    };
    let findings = validate_config(source, parsing("", Err("bad indent".to_string()))).unwrap_err();
    assert_eq!(
        findings,
        vec![ValidationFinding {
            severity: Severity::Error,
            message: "failed to parse config file /cfg/a.yaml: bad indent".to_string(),
        }]
    );
}

#[test]
fn validating_hands_the_text_to_the_parser() {
    let source = SourceFile {
        yaml: "anything at all",
        path: "a.yaml",
    };
    let findings = validate_config(source, |yaml| Err(format!("cannot read `{yaml}`"))).unwrap_err();
    assert_eq!(
        findings[0].message,
        "failed to parse config file a.yaml: cannot read `anything at all`"
    );
    let parsed = validate_parsed("a.yaml", Err("cannot read".to_string())).unwrap_err();
    assert_eq!(
        parsed[0].message,
        "failed to parse config file a.yaml: cannot read"
    );
    assert!(validate_parsed("a.yaml", Ok(SpreadFile { workspaces: vec![] })).is_ok());
}
