use moon_dashboard::dashboard::MooncakeSource;
use moon_dashboard::mooncakesio::MooncakesDB;
use moon_dashboard::resolver::get_mooncake_sources;
use moon_dashboard::resolver::ResolveError;

fn db_with(entries: &[(&str, &[&str])]) -> MooncakesDB {
    let mut db = MooncakesDB::new();
    for (name, versions) in entries {
        for v in *versions {
            db.add_record(name, v.to_string(), &None);
        }
    }
    db
}

#[test]
fn registry_line_without_versions_resolves_latest() {
    let db = db_with(&[("moonbitlang/core", &["0.5.0"])]);
    let content = Some("moonbitlang/core".to_string());
    let sources = get_mooncake_sources(&None, &content, &db).unwrap();
    assert_eq!(sources.len(), 1);
    assert_eq!(
        sources[0],
        MooncakeSource::MooncakesIO {
            name: "moonbitlang/core".to_string(),
            version: vec!["0.5.0".to_string()],
            index: 0,
        }
    );
}

#[test]
fn latest_resolves_to_last_published_version() {
    let db = db_with(&[("alice/pkg", &["0.1.0", "0.2.0", "0.3.0"])]);
    let content = Some("alice/pkg latest".to_string());
    let sources = get_mooncake_sources(&None, &content, &db).unwrap();
    assert_eq!(
        sources[0],
        MooncakeSource::MooncakesIO {
            name: "alice/pkg".to_string(),
            version: vec!["0.3.0".to_string()],
            index: 0,
        }
    );
}

#[test]
fn unknown_package_fails_resolution() {
    let db = MooncakesDB::new();
    let content = Some("nobody/nothing".to_string());
    let err = get_mooncake_sources(&None, &content, &db).unwrap_err();
    assert_eq!(err, ResolveError::UnknownPackage("nobody/nothing".to_string()));
}

#[test]
fn explicit_versions_skip_the_registry() {
    let db = MooncakesDB::new();
    let content = Some("nobody/nothing 0.1.0".to_string());
    let sources = get_mooncake_sources(&None, &content, &db).unwrap();
    assert_eq!(
        sources[0],
        MooncakeSource::MooncakesIO {
            name: "nobody/nothing".to_string(),
            version: vec!["0.1.0".to_string()],
            index: 0,
        }
    );
}

#[test]
fn versions_are_sorted_and_deduplicated() {
    let db = MooncakesDB::new();
    let content = Some("alice/pkg 0.2.0 0.1.0 0.2.0 0.10.0".to_string());
    let sources = get_mooncake_sources(&None, &content, &db).unwrap();
    assert_eq!(
        sources[0],
        MooncakeSource::MooncakesIO {
            name: "alice/pkg".to_string(),
            version: vec![
                "0.1.0".to_string(),
                "0.10.0".to_string(),
                "0.2.0".to_string(),
            ],
            index: 0,
        }
    );
}

#[test]
fn git_line_without_revisions_gets_head() {
    let db = MooncakesDB::new();
    let content = Some("https://example.com/x.git".to_string());
    let sources = get_mooncake_sources(&None, &content, &db).unwrap();
    assert_eq!(
        sources[0],
        MooncakeSource::Git {
            url: "https://example.com/x.git".to_string(),
            rev: vec!["HEAD".to_string()],
            index: 0,
        }
    );
}

#[test]
fn git_line_keeps_listed_revisions() {
    let db = MooncakesDB::new();
    let content = Some("https://example.com/x.git hash1 hash2 hash3".to_string());
    let sources = get_mooncake_sources(&None, &content, &db).unwrap();
    assert_eq!(
        sources[0],
        MooncakeSource::Git {
            url: "https://example.com/x.git".to_string(),
            rev: vec![
                "hash1".to_string(),
                "hash2".to_string(),
                "hash3".to_string(),
            ],
            index: 0,
        }
    );
}

#[test]
fn comments_and_blank_lines_are_skipped() {
    let db = MooncakesDB::new();
    let content = Some(
        "# heading\n\n   \nhttps://example.com/a.git\n  # indented comment\nhttps://example.com/b.git\n"
            .to_string(),
    );
    let sources = get_mooncake_sources(&None, &content, &db).unwrap();
    assert_eq!(sources.len(), 2);
    assert_eq!(sources[0].get_index(), 0);
    assert_eq!(sources[1].get_index(), 1);
}

#[test]
fn indices_are_sequential_over_mixed_lines() {
    let db = db_with(&[("alice/pkg", &["1.0.0"])]);
    let content = Some("https://example.com/x.git\nalice/pkg\nhttps://example.com/y.git a b".to_string());
    let sources = get_mooncake_sources(&None, &content, &db).unwrap();
    assert_eq!(sources.len(), 3);
    for (i, s) in sources.iter().enumerate() {
        assert_eq!(s.get_index(), i);
    }
}

#[test]
fn repo_url_is_prepended_at_index_zero() {
    let db = MooncakesDB::new();
    let repo = Some("https://example.com/first.git".to_string());
    let content = Some("https://example.com/second.git".to_string());
    let sources = get_mooncake_sources(&repo, &content, &db).unwrap();
    assert_eq!(sources.len(), 2);
    assert_eq!(
        sources[0],
        MooncakeSource::Git {
            url: "https://example.com/first.git".to_string(),
            rev: vec![],
            index: 0,
        }
    );
    assert_eq!(sources[1].get_index(), 1);
}

#[test]
fn no_inputs_resolve_to_no_sources() {
    let db = MooncakesDB::new();
    let sources = get_mooncake_sources(&None, &None, &db).unwrap();
    assert!(sources.is_empty());
}

#[test]
fn lines_are_trimmed_before_parsing() {
    let db = MooncakesDB::new();
    let content = Some("   https://example.com/x.git rev1  \r\n".to_string());
    let sources = get_mooncake_sources(&None, &content, &db).unwrap();
    assert_eq!(
        sources[0],
        MooncakeSource::Git {
            url: "https://example.com/x.git".to_string(),
            rev: vec!["rev1".to_string()],
            index: 0,
        }
    );
}

#[test]
fn resolving_twice_yields_identical_lists() {
    let db = db_with(&[("alice/pkg", &["0.9.0", "1.0.0"])]);
    let repo = Some("https://example.com/first.git".to_string());
    let content = Some(
        "https://example.com/x.git r1 r2\nalice/pkg latest 0.5.0\n# note\nbob/tool 2.0.0".to_string(),
    );
    let a = get_mooncake_sources(&repo, &content, &db).unwrap();
    let b = get_mooncake_sources(&repo, &content, &db).unwrap();
    assert_eq!(a, b);
}

#[test]
fn latest_mixed_with_explicit_versions_is_merged_sorted() {
    let db = db_with(&[("alice/pkg", &["0.9.0"])]);
    let content = Some("alice/pkg latest 0.5.0 latest".to_string());
    let sources = get_mooncake_sources(&None, &content, &db).unwrap();
    assert_eq!(
        sources[0],
        MooncakeSource::MooncakesIO {
            name: "alice/pkg".to_string(),
            version: vec!["0.5.0".to_string(), "0.9.0".to_string()],
            index: 0,
        }
    );
}

#[test]
fn error_names_the_first_failing_package() {
    let db = db_with(&[("alice/pkg", &["1.0.0"])]);
    let content = Some("alice/pkg\nbob/tool\ncarol/tool".to_string());
    let err = get_mooncake_sources(&None, &content, &db).unwrap_err();
    assert_eq!(err, ResolveError::UnknownPackage("bob/tool".to_string()));
}

#[test]
fn double_spaces_keep_empty_revision_tokens() {
    // Tokens are split on single spaces, so a run of two spaces yields
    // an empty revision token, which is kept as written.
    let db = MooncakesDB::new();
    let content = Some("https://example.com/x.git a  b".to_string());
    let sources = get_mooncake_sources(&None, &content, &db).unwrap();
    assert_eq!(
        sources[0],
        MooncakeSource::Git {
            url: "https://example.com/x.git".to_string(),
            rev: vec!["a".to_string(), "".to_string(), "b".to_string()],
            index: 0,
        }
    );
}

#[test]
fn crlf_line_endings_are_handled() {
    let db = MooncakesDB::new();
    let content = Some("https://example.com/a.git\r\nhttps://example.com/b.git\r\n".to_string());
    let sources = get_mooncake_sources(&None, &content, &db).unwrap();
    assert_eq!(sources.len(), 2);
    match &sources[1] {
        MooncakeSource::Git { url, .. } => assert_eq!(url, "https://example.com/b.git"),
        _ => panic!("expected a git source"),
    }
}
