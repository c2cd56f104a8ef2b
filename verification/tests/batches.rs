use beetree::file_handling::{FsTree, LangRoot, TargetFile};
use beetree::lang::{
    append, general_find, insert, language_base_find_file, remove, run, Action, AppendConfig,
    Config, Error, FindSpecified, InsertConfig, RemoveConfig,
};
use beetree::Input;

fn lang_snapshot(lang: &str, path: &str, content: &str, target: Option<&str>) -> (String, LangRoot) {
    (
        lang.to_string(),
        LangRoot {
            root: Some(FsTree::Dir {
                entries: vec![FsTree::File {
                    path: path.to_string(),
                    content: Some(content.to_string()),
                }],
            }),
            target: match target {
                Some(t) => TargetFile::At(t.to_string()),
                None => TargetFile::Unspecified,
            },
        },
    )
}

#[test]
fn insert_puts_snippets_above_anchor_per_language() {
    let snaps = vec![
        lang_snapshot("en", "base/en/app.conf", "GREETING=old", None),
        lang_snapshot("fr", "base/fr/app.conf", "GREETING=old", None),
    ];
    let config = InsertConfig {
        verbose: false,
        base_path: "base".to_string(),
        input: Input::Text("en,Hi\nfr,Salut".to_string()),
        src_tag: "MSG".to_string(),
        dst_tag: FindSpecified { needle: "GREETING".to_string(), file: None },
    };
    let ws = insert(config, &snaps).unwrap();
    assert_eq!(ws.len(), 2);
    assert_eq!(ws[0].path, "base/en/app.conf");
    assert_eq!(ws[0].content, "MSG=\"Hi\"\nGREETING=old");
    assert_eq!(ws[1].path, "base/fr/app.conf");
    assert_eq!(ws[1].content, "MSG=\"Salut\"\nGREETING=old");
}

#[test]
fn insert_keeps_anchor_line_in_place() {
    let snaps = vec![lang_snapshot("en", "base/en/app.conf", "top\nGREETING=old\nbottom", None)];
    let config = InsertConfig {
        verbose: false,
        base_path: "base".to_string(),
        input: Input::Text("en,Hi".to_string()),
        src_tag: "MSG".to_string(),
        dst_tag: FindSpecified { needle: "GREETING".to_string(), file: None },
    };
    let ws = insert(config, &snaps).unwrap();
    assert_eq!(ws[0].content, "top\nMSG=\"Hi\"\nGREETING=old\nbottom");
}

#[test]
fn append_targets_exact_file() {
    let snaps = vec![
        lang_snapshot("en", "base/en/app.conf", "a\n", Some("base/en/app.conf")),
        lang_snapshot("fr", "base/fr/app.conf", "", Some("base/fr/app.conf")),
    ];
    let config = AppendConfig {
        verbose: false,
        base_path: "base".to_string(),
        file: "app.conf".to_string(),
        input: Input::Text("en,Hi\nfr,Salut".to_string()),
        src_tag: "MSG".to_string(),
    };
    let ws = append(config, &snaps).unwrap();
    assert_eq!(ws.len(), 2);
    assert_eq!(ws[0].content, "a\nMSG=\"Hi\"");
    assert_eq!(ws[1].content, "MSG=\"Salut\"");
}

#[test]
fn append_to_unreadable_file_fails_with_io() {
    let snaps = vec![(
        "en".to_string(),
        LangRoot {
            root: Some(FsTree::File { path: "base/en/app.conf".to_string(), content: None }),
            target: TargetFile::At("base/en/app.conf".to_string()),
        },
    )];
    let config = AppendConfig {
        verbose: false,
        base_path: "base".to_string(),
        file: "app.conf".to_string(),
        input: Input::Text("en,Hi".to_string()),
        src_tag: "MSG".to_string(),
    };
    let r = append(config, &snaps);
    match r {
        Err(Error::Io { path }) => assert_eq!(path, "base/en/app.conf"),
        _ => panic!("expected an unreadable-contents failure"),
    }
}

#[test]
fn duplicate_language_sees_earlier_edit_and_first_snippet() {
    let snaps = vec![lang_snapshot("en", "base/en/f", "", Some("base/en/f"))];
    let config = AppendConfig {
        verbose: false,
        base_path: "base".to_string(),
        file: "f".to_string(),
        input: Input::Text("en,a\nen,b".to_string()),
        src_tag: "T".to_string(),
    };
    let ws = append(config, &snaps).unwrap();
    assert_eq!(ws.len(), 2);
    assert_eq!(ws[0].content, "T=\"a\"");
    assert_eq!(ws[1].content, "T=\"a\"\nT=\"a\"");
}

#[test]
fn remove_deletes_anchor_line_per_listed_language() {
    let snaps = vec![
        lang_snapshot("en", "base/en/app.conf", "keep\nGREETING=old", None),
        lang_snapshot("fr", "base/fr/app.conf", "GREETING=old\nkeep", None),
    ];
    let config = RemoveConfig {
        verbose: false,
        base_path: "base".to_string(),
        dst_tag: FindSpecified { needle: "GREETING".to_string(), file: None },
        languages: "en,fr".to_string(),
        yes: true,
    };
    let ws = remove(config, &snaps).unwrap();
    assert_eq!(ws.len(), 2);
    assert_eq!(ws[0].content, "keep");
    assert_eq!(ws[1].content, "keep");
}

#[test]
fn remove_with_empty_list_reports_empty_language() {
    let snaps = vec![lang_snapshot("en", "base/en/app.conf", "GREETING=old", None)];
    let config = RemoveConfig {
        verbose: false,
        base_path: "base".to_string(),
        dst_tag: FindSpecified { needle: "GREETING".to_string(), file: None },
        languages: "".to_string(),
        yes: true,
    };
    let r = remove(config, &snaps);
    match r {
        Err(Error::TagSearchFailed { language, .. }) => assert_eq!(language, ""),
        _ => panic!("expected an unresolved language"),
    }
}

#[test]
fn unresolved_language_fails_whole_batch_with_context() {
    let snaps = vec![lang_snapshot("en", "base/en/app.conf", "GREETING=old", None)];
    let config = InsertConfig {
        verbose: false,
        base_path: "base".to_string(),
        input: Input::Text("en,Hi\nfr,Salut".to_string()),
        src_tag: "MSG".to_string(),
        dst_tag: FindSpecified { needle: "GREETING".to_string(), file: None },
    };
    let r = insert(config, &snaps);
    match r {
        Err(Error::TagSearchFailed { base, tag, file, language }) => {
            assert_eq!(base, "base/fr");
            assert_eq!(tag, Some("GREETING".to_string()));
            assert_eq!(file, None);
            assert_eq!(language, "fr");
        },
        _ => panic!("expected an unresolved language"),
    }
}

#[test]
fn parse_failure_touches_no_target() {
    let snaps = vec![lang_snapshot("en", "base/en/app.conf", "GREETING=old", None)];
    let config = InsertConfig {
        verbose: false,
        base_path: "base".to_string(),
        input: Input::Text("broken".to_string()),
        src_tag: "MSG".to_string(),
        dst_tag: FindSpecified { needle: "GREETING".to_string(), file: None },
    };
    assert!(matches!(insert(config, &snaps), Err(Error::NoSeparator)));
}

#[test]
fn insert_confined_to_explicit_file() {
    let snaps = vec![(
        "en".to_string(),
        LangRoot {
            root: Some(FsTree::Dir {
                entries: vec![
                    FsTree::File {
                        path: "base/en/other.conf".to_string(),
                        content: Some("GREETING=decoy".to_string()),
                    },
                    FsTree::File {
                        path: "base/en/app.conf".to_string(),
                        content: Some("GREETING=old".to_string()),
                    },
                ],
            }),
            target: TargetFile::At("base/en/app.conf".to_string()),
        },
    )];
    let config = InsertConfig {
        verbose: false,
        base_path: "base".to_string(),
        input: Input::Text("en,Hi".to_string()),
        src_tag: "MSG".to_string(),
        dst_tag: FindSpecified { needle: "GREETING".to_string(), file: Some("app.conf".to_string()) },
    };
    let ws = insert(config, &snaps).unwrap();
    assert_eq!(ws.len(), 1);
    assert_eq!(ws[0].path, "base/en/app.conf");
    assert_eq!(ws[0].content, "MSG=\"Hi\"\nGREETING=old");
}

#[test]
fn unresolvable_requested_file_keeps_confinement() {
    let snaps = vec![(
        "en".to_string(),
        LangRoot {
            root: Some(FsTree::Dir {
                entries: vec![FsTree::File {
                    path: "base/en/other.conf".to_string(),
                    content: Some("GREETING=decoy".to_string()),
                }],
            }),
            target: TargetFile::Unresolved,
        },
    )];
    let config = InsertConfig {
        verbose: false,
        base_path: "base".to_string(),
        input: Input::Text("en,Hi".to_string()),
        src_tag: "MSG".to_string(),
        dst_tag: FindSpecified {
            needle: "GREETING".to_string(),
            file: Some("app.conf".to_string()),
        },
    };
    let r = insert(config, &snaps);
    match r {
        Err(Error::TagSearchFailed { base, tag, file, language }) => {
            assert_eq!(base, "base/en");
            assert_eq!(tag, Some("GREETING".to_string()));
            assert_eq!(file, Some("app.conf".to_string()));
            assert_eq!(language, "en");
        },
        _ => panic!("a requested file that cannot be resolved must fail, not widen the search"),
    }
}

#[test]
fn append_with_unresolvable_target_reports_not_found() {
    let snaps = vec![(
        "en".to_string(),
        LangRoot {
            root: Some(FsTree::Dir {
                entries: vec![FsTree::File {
                    path: "base/en/other.conf".to_string(),
                    content: Some("x".to_string()),
                }],
            }),
            target: TargetFile::Unresolved,
        },
    )];
    let config = AppendConfig {
        verbose: false,
        base_path: "base".to_string(),
        file: "app.conf".to_string(),
        input: Input::Text("en,Hi".to_string()),
        src_tag: "MSG".to_string(),
    };
    let r = append(config, &snaps);
    match r {
        Err(Error::TagSearchFailed { base, tag, file, language }) => {
            assert_eq!(base, "base/en");
            assert_eq!(tag, None);
            assert_eq!(file, Some("app.conf".to_string()));
            assert_eq!(language, "en");
        },
        _ => panic!("a requested file that cannot be resolved must fail with the structured error"),
    }
}

#[test]
fn run_prepend_matches_insert_behaviour() {
    let snaps = vec![lang_snapshot("en", "base/en/app.conf", "GREETING=old", None)];
    let config = Config {
        verbose: false,
        base_path: "base".to_string(),
        text: Some("en,Hi".to_string()),
        input_file: None,
        action: Action::PrependFile(FindSpecified {
            needle: "GREETING".to_string(),
            file: None,
        }),
        new_var: "MSG".to_string(),
    };
    let ws = run(config, &snaps).unwrap();
    assert_eq!(ws.len(), 1);
    assert_eq!(ws[0].content, "MSG=\"Hi\"\nGREETING=old");
}

#[test]
fn run_reports_parse_failure_tersely() {
    let snaps = vec![lang_snapshot("en", "base/en/app.conf", "GREETING=old", None)];
    let config = Config {
        verbose: false,
        base_path: "base".to_string(),
        text: Some("broken".to_string()),
        input_file: None,
        action: Action::Delete(FindSpecified { needle: "GREETING".to_string(), file: None }),
        new_var: "MSG".to_string(),
    };
    assert_eq!(run(config, &snaps), Err("lol"));
}

#[test]
fn run_reports_unresolved_language_tersely() {
    let snaps: Vec<(String, LangRoot)> = vec![];
    let config = Config {
        verbose: false,
        base_path: "base".to_string(),
        text: Some("en,Hi".to_string()),
        input_file: None,
        action: Action::Delete(FindSpecified { needle: "GREETING".to_string(), file: None }),
        new_var: "MSG".to_string(),
    };
    assert_eq!(run(config, &snaps), Err("path not found for lang: l"));
}

#[test]
fn general_find_reports_per_language() {
    let snaps = vec![lang_snapshot("en", "base/en/app.conf", "GREETING=old", None)];
    let langs = vec!["en".to_string(), "fr".to_string()];
    let base = "base".to_string();
    let needle = "GREETING".to_string();
    let r = general_find(&base, &langs, &snaps, None, Some(&needle));
    assert_eq!(r.len(), 2);
    assert_eq!(r[0].0, "en");
    match &r[0].1 {
        Ok(m) => {
            assert_eq!(m.file, "base/en/app.conf");
            assert_eq!(m.line, Some(0));
        },
        Err(_) => panic!("expected a match for en"),
    }
    assert_eq!(r[1].0, "fr");
    assert!(matches!(&r[1].1, Err(Error::TagSearchFailed { .. })));
}

#[test]
fn language_base_find_file_reports_option_per_language() {
    let snaps = vec![lang_snapshot("en", "base/en/app.conf", "GREETING=old", None)];
    let langs = vec!["en".to_string(), "fr".to_string()];
    let needle = "GREETING".to_string();
    let r = language_base_find_file(&langs, &snaps, Some(&needle));
    assert_eq!(r.len(), 2);
    assert!(r[0].1.is_some());
    assert!(r[1].1.is_none());
}

#[test]
fn missing_language_directory_is_no_match() {
    let snaps = vec![(
        "en".to_string(),
        LangRoot { root: None, target: TargetFile::Unspecified },
    )];
    let langs = vec!["en".to_string()];
    let needle = "GREETING".to_string();
    let r = language_base_find_file(&langs, &snaps, Some(&needle));
    assert!(r[0].1.is_none());
}
