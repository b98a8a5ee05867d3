use macos_resolver::{DirState, FileEntry, FileResolver, ResolverConfig};

fn test_config() -> ResolverConfig {
    ResolverConfig::new("test.local", "127.0.0.1", 5553)
}

fn content_of(dir: &DirState, name: &str) -> Option<String> {
    dir.files.iter().find(|e| e.name == name).map(|e| e.content.clone())
}

fn file_exists(dir: &DirState, name: &str) -> bool {
    dir.files.iter().any(|e| e.name == name)
}

fn put_file(dir: &mut DirState, name: &str, content: &str) {
    dir.files.push(FileEntry { name: name.to_string(), content: content.to_string() });
}

#[test]
fn marker_is_derived_from_prefix() {
    let resolver = FileResolver::new("myapp");
    assert_eq!(resolver.marker(), "# managed by myapp");
}

#[test]
fn register_writes_file_with_pid() {
    let mut dir = DirState::empty();
    let resolver = FileResolver::new("testapp");
    let config = test_config();

    let pid = 4242;
    resolver.register(&mut dir, &config, pid).unwrap();
    let content = content_of(&dir, "test.local").unwrap();

    assert!(content.contains("testapp"));
    assert!(content.contains("nameserver 127.0.0.1"));
    assert!(content.contains("port 5553"));
    assert!(content.contains("search_order 1"));
    assert!(content.contains(&format!("pid={}", pid)));
}

#[test]
fn register_and_unregister() {
    let mut dir = DirState::empty();
    let resolver = FileResolver::new("testapp");
    let config = test_config();

    resolver.register(&mut dir, &config, 4242).unwrap();
    assert!(file_exists(&dir, "test.local"));
    assert!(resolver.is_registered(&dir, "test.local"));
    assert_eq!(resolver.list(&dir).unwrap(), vec!["test.local"]);

    resolver.unregister(&mut dir, "test.local").unwrap();
    assert!(!file_exists(&dir, "test.local"));
    assert!(!resolver.is_registered(&dir, "test.local"));
}

#[test]
fn unregister_nonexistent_is_noop() {
    let mut dir = DirState::empty();
    let resolver = FileResolver::new("testapp");
    resolver.unregister(&mut dir, "nonexistent.local").unwrap();
}

#[test]
fn unregister_refuses_unmanaged_file() {
    let mut dir = DirState::empty();
    put_file(&mut dir, "other.local", "nameserver 1.1.1.1\nport 53\n");

    let resolver = FileResolver::new("testapp");
    assert!(resolver.unregister(&mut dir, "other.local").is_err());
    assert!(file_exists(&dir, "other.local"));
}

#[test]
fn unregister_refuses_file_from_different_app() {
    let mut dir = DirState::empty();
    put_file(
        &mut dir,
        "shared.local",
        "# managed by otherapp\nnameserver 127.0.0.1\nport 53\n",
    );

    let resolver = FileResolver::new("myapp");
    assert!(resolver.unregister(&mut dir, "shared.local").is_err());
    assert!(file_exists(&dir, "shared.local"));
}

#[test]
fn extract_pid_parses_marker() {
    let resolver = FileResolver::new("testapp");
    let content = "# managed by testapp (pid=42)\nnameserver 127.0.0.1\nport 5553\n";
    assert_eq!(resolver.extract_pid(content), Some(42));
}

#[test]
fn cleanup_removes_dead_pid_files() {
    let mut dir = DirState::empty();
    let resolver = FileResolver::new("testapp");

    put_file(
        &mut dir,
        "orphan.local",
        "# managed by testapp (pid=999999999)\nnameserver 127.0.0.1\nport 5553\n",
    );

    // No process is live, so PID 999999999 is dead.
    let live: Vec<u32> = Vec::new();
    assert_eq!(resolver.cleanup_orphaned(&mut dir, &live).unwrap(), 1);
    assert!(!file_exists(&dir, "orphan.local"));
}

#[test]
fn cleanup_preserves_alive_pid_files() {
    let mut dir = DirState::empty();
    let resolver = FileResolver::new("testapp");

    let pid = 4242;
    put_file(
        &mut dir,
        "alive.local",
        &format!("# managed by testapp (pid={pid})\nnameserver 127.0.0.1\nport 5553\n"),
    );

    let live = vec![pid];
    assert_eq!(resolver.cleanup_orphaned(&mut dir, &live).unwrap(), 0);
    assert!(file_exists(&dir, "alive.local"));
}

#[test]
fn list_empty_and_nonexistent() {
    // An empty directory and one that does not exist are indistinguishable.
    let dir = DirState::empty();
    assert!(FileResolver::new("testapp").list(&dir).unwrap().is_empty());
    assert!(
        FileResolver::new("testapp")
            .dir("/nonexistent")
            .list(&dir)
            .unwrap()
            .is_empty()
    );
}

#[test]
fn multiple_domains() {
    let mut dir = DirState::empty();
    let resolver = FileResolver::new("testapp");

    resolver.register(&mut dir, &test_config(), 4242).unwrap();
    resolver
        .register(
            &mut dir,
            &ResolverConfig::new("docker.internal", "127.0.0.1", 5553).with_search_order(2),
            4242,
        )
        .unwrap();

    let mut domains = resolver.list(&dir).unwrap();
    domains.sort();
    assert_eq!(domains, vec!["docker.internal", "test.local"]);
}

#[test]
fn register_permanent_creates_file_without_pid() {
    let mut dir = DirState::empty();
    let resolver = FileResolver::new("testapp");
    let config = test_config();

    resolver.register_permanent(&mut dir, &config).unwrap();
    assert!(file_exists(&dir, "test.local"));
    assert!(resolver.is_registered(&dir, "test.local"));

    let content = content_of(&dir, "test.local").unwrap();
    assert!(content.contains("testapp"));
    assert!(content.contains("nameserver 127.0.0.1"));
    assert!(content.contains("port 5553"));
    assert!(!content.contains("pid="));
}

#[test]
fn cleanup_skips_permanent_files() {
    let mut dir = DirState::empty();
    let resolver = FileResolver::new("testapp");
    let config = test_config();

    resolver.register_permanent(&mut dir, &config).unwrap();
    let live: Vec<u32> = Vec::new();
    assert_eq!(resolver.cleanup_orphaned(&mut dir, &live).unwrap(), 0);
    assert!(file_exists(&dir, "test.local"));
}

#[test]
fn register_overwrites() {
    let mut dir = DirState::empty();
    let resolver = FileResolver::new("testapp");

    resolver.register(&mut dir, &test_config(), 4242).unwrap();
    resolver
        .register(&mut dir, &ResolverConfig::new("test.local", "127.0.0.1", 6000), 4242)
        .unwrap();

    let content = content_of(&dir, "test.local").unwrap();
    assert!(content.contains("port 6000"));
    assert!(!content.contains("port 5553"));
}
