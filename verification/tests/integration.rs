use macos_resolver::{DirState, FileEntry, FileResolver, ResolverConfig};

fn file_exists(dir: &DirState, name: &str) -> bool {
    dir.files.iter().any(|e| e.name == name)
}

#[test]
fn full_lifecycle() {
    let mut dir = DirState::empty();
    let r = FileResolver::new("testapp");

    assert!(r.list(&dir).unwrap().is_empty());

    // Register two domains.
    r.register(&mut dir, &ResolverConfig::new("app.local", "127.0.0.1", 5553), 4242)
        .unwrap();
    r.register(
        &mut dir,
        &ResolverConfig::new("docker.internal", "127.0.0.1", 5553),
        4242,
    )
    .unwrap();

    assert!(r.is_registered(&dir, "app.local"));
    let mut domains = r.list(&dir).unwrap();
    domains.sort();
    assert_eq!(domains, vec!["app.local", "docker.internal"]);

    // Unregister one at a time.
    r.unregister(&mut dir, "app.local").unwrap();
    assert!(!r.is_registered(&dir, "app.local"));
    assert!(r.is_registered(&dir, "docker.internal"));

    r.unregister(&mut dir, "docker.internal").unwrap();
    assert!(r.list(&dir).unwrap().is_empty());
}

#[test]
fn orphan_cleanup() {
    let mut dir = DirState::empty();
    let r = FileResolver::new("testapp");

    // Dead process.
    dir.files.push(FileEntry {
        name: "stale.local".to_string(),
        content: "# managed by testapp (pid=999999999)\nnameserver 127.0.0.1\nport 5553\nsearch_order 1\n".to_string(),
    });

    // Alive process.
    let pid = 4242;
    dir.files.push(FileEntry {
        name: "alive.local".to_string(),
        content: format!(
            "# managed by testapp (pid={pid})\nnameserver 127.0.0.1\nport 5553\nsearch_order 1\n"
        ),
    });

    // Unmanaged file.
    dir.files.push(FileEntry {
        name: "other.local".to_string(),
        content: "nameserver 8.8.8.8\n".to_string(),
    });

    let live = vec![pid];
    assert_eq!(r.cleanup_orphaned(&mut dir, &live).unwrap(), 1);

    assert!(!file_exists(&dir, "stale.local"));
    assert!(file_exists(&dir, "alive.local"));
    assert!(file_exists(&dir, "other.local"));
}

#[test]
fn idempotent_register() {
    let mut dir = DirState::empty();
    let r = FileResolver::new("testapp");
    let config = ResolverConfig::new("app.local", "127.0.0.1", 5553);

    r.register(&mut dir, &config, 4242).unwrap();
    r.register(&mut dir, &config, 4242).unwrap();
    assert_eq!(r.list(&dir).unwrap().len(), 1);
}

#[test]
fn idempotent_unregister() {
    let mut dir = DirState::empty();
    let r = FileResolver::new("testapp");

    r.register(&mut dir, &ResolverConfig::new("app.local", "127.0.0.1", 5553), 4242)
        .unwrap();
    r.unregister(&mut dir, "app.local").unwrap();
    // Second call is a no-op (file already gone).
    r.unregister(&mut dir, "app.local").unwrap();
}
