use macos_resolver::{
    to_env_prefix, DirState, FileEntry, FileResolver, IoErrorKind, ResolverConfig, ResolverError,
};

fn content_of(dir: &DirState, name: &str) -> Option<String> {
    dir.files.iter().find(|e| e.name == name).map(|e| e.content.clone())
}

#[test]
fn end_to_end_scenario() {
    let mut dir = DirState::empty();
    let r = FileResolver::with_marker("# managed by testapp");

    r.register(&mut dir, &ResolverConfig::new("app.local", "127.0.0.1", 5553), 77)
        .unwrap();
    r.register(
        &mut dir,
        &ResolverConfig::new("docker.internal", "127.0.0.1", 5553).with_search_order(2),
        77,
    )
    .unwrap();

    let mut domains = r.list(&dir).unwrap();
    domains.sort();
    assert_eq!(domains, vec!["app.local", "docker.internal"]);
    assert!(r.is_registered(&dir, "app.local"));

    r.unregister(&mut dir, "app.local").unwrap();
    let mut domains = r.list(&dir).unwrap();
    domains.sort();
    assert_eq!(domains, vec!["docker.internal"]);
}

#[test]
fn register_renders_exact_content() {
    let mut dir = DirState::empty();
    let r = FileResolver::with_marker("# managed by testapp");
    r.register(&mut dir, &ResolverConfig::new("test.local", "127.0.0.1", 5553), 42)
        .unwrap();
    assert_eq!(
        content_of(&dir, "test.local").unwrap(),
        "# managed by testapp (pid=42)\nnameserver 127.0.0.1\nport 5553\nsearch_order 1\n"
    );
}

#[test]
fn register_permanent_renders_exact_content() {
    let mut dir = DirState::empty();
    let r = FileResolver::with_marker("# managed by testapp");
    r.register_permanent(
        &mut dir,
        &ResolverConfig::new("test.local", "10.0.0.1", 53).with_search_order(7),
    )
    .unwrap();
    assert_eq!(
        content_of(&dir, "test.local").unwrap(),
        "# managed by testapp\nnameserver 10.0.0.1\nport 53\nsearch_order 7\n"
    );
}

#[test]
fn renders_zero_values() {
    let mut dir = DirState::empty();
    let r = FileResolver::with_marker("# managed by testapp");
    r.register(
        &mut dir,
        &ResolverConfig::new("z.local", "0.0.0.0", 0).with_search_order(0),
        0,
    )
    .unwrap();
    assert_eq!(
        content_of(&dir, "z.local").unwrap(),
        "# managed by testapp (pid=0)\nnameserver 0.0.0.0\nport 0\nsearch_order 0\n"
    );
}

#[test]
fn register_twice_identical_content() {
    let r = FileResolver::new("testapp");
    let config = ResolverConfig::new("app.local", "127.0.0.1", 5553);

    let mut once = DirState::empty();
    r.register(&mut once, &config, 4242).unwrap();

    let mut twice = DirState::empty();
    r.register(&mut twice, &config, 4242).unwrap();
    r.register(&mut twice, &config, 4242).unwrap();

    assert_eq!(twice.files.len(), 1);
    assert_eq!(content_of(&once, "app.local"), content_of(&twice, "app.local"));
}

#[test]
fn unmanaged_file_survives_both_removal_paths() {
    let mut dir = DirState::empty();
    dir.files.push(FileEntry {
        name: "other.local".to_string(),
        content: "nameserver 1.1.1.1\nport 53\n".to_string(),
    });
    let r = FileResolver::new("testapp");

    let err = r.unregister(&mut dir, "other.local").unwrap_err();
    assert!(matches!(err, ResolverError::NotManaged { domain } if domain == "other.local"));

    let live: Vec<u32> = Vec::new();
    assert_eq!(r.cleanup_orphaned(&mut dir, &live).unwrap(), 0);
    assert_eq!(content_of(&dir, "other.local").unwrap(), "nameserver 1.1.1.1\nport 53\n");
}

#[test]
fn permanent_entry_immune_to_any_liveness() {
    let r = FileResolver::new("testapp");
    let config = ResolverConfig::new("test.local", "127.0.0.1", 5553);

    for live in [Vec::new(), vec![4242u32], vec![1, 2, 3]] {
        let mut dir = DirState::empty();
        r.register_permanent(&mut dir, &config).unwrap();
        assert_eq!(r.cleanup_orphaned(&mut dir, &live).unwrap(), 0);
        assert!(r.is_registered(&dir, "test.local"));
    }
}

#[test]
fn cleanup_empty_dir_returns_zero() {
    let mut dir = DirState::empty();
    let r = FileResolver::new("testapp").dir("/nonexistent");
    let live: Vec<u32> = Vec::new();
    assert_eq!(r.cleanup_orphaned(&mut dir, &live).unwrap(), 0);
}

#[test]
fn extract_pid_edge_cases() {
    let r = FileResolver::with_marker("# managed by testapp");
    // No annotation at all: a permanent entry.
    assert_eq!(r.extract_pid("# managed by testapp\nnameserver 127.0.0.1\n"), None);
    // Malformed digits.
    assert_eq!(r.extract_pid("# managed by testapp (pid=abc)\n"), None);
    // Missing closing parenthesis.
    assert_eq!(r.extract_pid("# managed by testapp (pid=42\n"), None);
    // Empty digits.
    assert_eq!(r.extract_pid("# managed by testapp (pid=)\n"), None);
    // Too large for u32.
    assert_eq!(r.extract_pid("# managed by testapp (pid=4294967296)\n"), None);
    // Largest PID that fits.
    assert_eq!(
        r.extract_pid("# managed by testapp (pid=4294967295)\n"),
        Some(4294967295)
    );
    // Marker on a later line is still found.
    assert_eq!(
        r.extract_pid("something else\n# managed by testapp (pid=9)\n"),
        Some(9)
    );
    // No marker anywhere.
    assert_eq!(r.extract_pid("nameserver 1.1.1.1\n"), None);
}

#[test]
fn is_permission_denied_recognizes_only_that_kind() {
    assert!(ResolverError::Io { kind: IoErrorKind::PermissionDenied }.is_permission_denied());
    assert!(!ResolverError::Io { kind: IoErrorKind::NotFound }.is_permission_denied());
    assert!(!ResolverError::Io { kind: IoErrorKind::Other }.is_permission_denied());
    assert!(!ResolverError::NotManaged { domain: "x".to_string() }.is_permission_denied());
    assert!(!ResolverError::DirNotFound { path: "/etc/resolver".to_string() }
        .is_permission_denied());
    assert!(!ResolverError::InvalidConfig("bad".to_string()).is_permission_denied());
}

#[test]
fn to_env_prefix_uppercases_and_replaces_dashes() {
    assert_eq!(to_env_prefix("my-app"), "MY_APP");
    assert_eq!(to_env_prefix("myapp"), "MYAPP");
    assert_eq!(to_env_prefix(""), "");
    assert_eq!(to_env_prefix("a-b-c"), "A_B_C");
}

#[test]
fn resolver_path_joins_dir_and_domain() {
    let r = FileResolver::new("testapp");
    assert_eq!(r.resolver_path("x.local"), "/etc/resolver/x.local");
    assert_eq!(r.resolver_dir(), "/etc/resolver");
    let r = r.dir("/tmp/resolver-test");
    assert_eq!(r.resolver_path("a.b"), "/tmp/resolver-test/a.b");
}

#[test]
fn is_registered_false_for_missing_and_unowned() {
    let mut dir = DirState::empty();
    let r = FileResolver::new("testapp");
    assert!(!r.is_registered(&dir, "missing.local"));
    dir.files.push(FileEntry {
        name: "foreign.local".to_string(),
        content: "# managed by otherapp\nnameserver 1.1.1.1\n".to_string(),
    });
    assert!(!r.is_registered(&dir, "foreign.local"));
}
