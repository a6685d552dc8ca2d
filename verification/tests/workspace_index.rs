use rig::protocol::{placeholder_entry, Commit, CommitArtifact, Index, IndexArtifact, StagedInfo};
use rig::workspace::{
    checkout_guard, commit_author, commit_change, is_source_code, move_artifact, needs_stash,
    new_commit, reset_to_commit, resolve_artifact_id, shelf_ref, stage_path, staged_paths,
    record_commit, skips_entry, stash_message, stash_unlock_guard, status_report, unlock_guard,
};

fn entry(id: &str, rev: u32, state: &str, stage: &str, locked: bool) -> IndexArtifact {
    IndexArtifact {
        artifact_id: id.to_string(),
        revision: rev,
        local_state: state.to_string(),
        stage: stage.to_string(),
        locked,
        lock_owner: if locked { Some("alice".to_string()) } else { None },
        lock_generation: None,
        staged: None,
        moved_from: None,
    }
}

fn index_with(entries: Vec<(&str, IndexArtifact)>) -> Index {
    let mut ix = Index::default();
    for (p, e) in entries {
        ix.artifacts.insert(p.to_string(), e);
    }
    ix
}

#[test]
fn default_index_is_empty_main() {
    let ix = Index::default();
    assert_eq!(ix.version, 1);
    assert_eq!(ix.branch, "main");
    assert!(ix.head.is_none());
    assert_eq!(ix.artifacts.len(), 0);
}

#[test]
fn stage_requires_lock() {
    let mut ix = index_with(vec![("hero.png", entry("id1", 1, "ready", "none", false))]);
    let r = stage_path(&mut ix, "hero.png", 10, 20);
    assert_eq!(r, Err("ERROR: File 'hero.png' is read-only. Use 'rig lock' first.".to_string()));
    assert_eq!(ix.artifacts.get("hero.png").unwrap().stage, "none");
}

#[test]
fn stage_requires_pulled_payload() {
    let mut ix = index_with(vec![("hero.png", entry("id1", 1, "placeholder", "none", true))]);
    let r = stage_path(&mut ix, "hero.png", 10, 20);
    assert_eq!(r, Err("ERROR: File 'hero.png' not downloaded. Run 'rig pull' first.".to_string()));
}

#[test]
fn stage_of_locked_file_records_size_and_time() {
    let mut ix = index_with(vec![("hero.png", entry("id1", 1, "ready", "none", true))]);
    assert_eq!(stage_path(&mut ix, "hero.png", 10, 20), Ok(()));
    let e = ix.artifacts.get("hero.png").unwrap();
    assert_eq!(e.stage, "staged");
    let st: StagedInfo = e.staged.unwrap();
    assert_eq!(st.mtime, 10);
    assert_eq!(st.size, 20);
    assert_eq!(e.artifact_id, "id1");
}

#[test]
fn stage_of_new_file_gets_fresh_id() {
    let mut ix = Index::default();
    assert_eq!(stage_path(&mut ix, "new.png", 1, 2), Ok(()));
    let e = ix.artifacts.get("new.png").unwrap();
    assert_eq!(e.artifact_id.len(), 36);
    assert_eq!(e.artifact_id.chars().filter(|c| *c == '-').count(), 4);
    assert_eq!(e.revision, 0);
    assert_eq!(e.local_state, "ready");
    assert!(e.locked);
    assert_eq!(e.stage, "staged");
}

#[test]
fn source_code_is_flagged() {
    assert!(is_source_code("src/main.rs"));
    assert!(is_source_code("tool.py"));
    assert!(!is_source_code("hero.png"));
    assert!(!is_source_code("Makefile"));
    assert!(!is_source_code(".rs"));
}

#[test]
fn move_keeps_artifact_and_lock() {
    let mut ix = index_with(vec![("a.png", entry("id1", 3, "ready", "none", true))]);
    assert_eq!(move_artifact(&mut ix, "a.png", "b/a.png"), Ok(()));
    assert!(!ix.artifacts.contains_key("a.png"));
    let e = ix.artifacts.get("b/a.png").unwrap();
    assert_eq!(e.artifact_id, "id1");
    assert_eq!(e.revision, 3);
    assert!(e.locked);
    assert_eq!(e.lock_owner.as_deref(), Some("alice"));
    assert_eq!(e.moved_from.as_deref(), Some("a.png"));
}

#[test]
fn move_refuses_collision_and_unknown_source() {
    let mut ix = index_with(vec![
        ("a.png", entry("id1", 1, "ready", "none", false)),
        ("b.png", entry("id2", 1, "ready", "none", false)),
    ]);
    assert_eq!(
        move_artifact(&mut ix, "a.png", "b.png"),
        Err("Error: destination path 'b.png' is already tracked as artifact [id2]. Use 'rig lock' and remove or rename the destination artifact first.".to_string())
    );
    assert_eq!(move_artifact(&mut ix, "c.png", "d.png"), Err("Artifact 'c.png' not found".to_string()));
    assert!(ix.artifacts.contains_key("a.png"));
}

#[test]
fn resolve_by_tracked_path() {
    let ix = index_with(vec![("a.png", entry("id1", 1, "ready", "none", false))]);
    assert_eq!(resolve_artifact_id(&ix, "a.png"), Some("a.png".to_string()));
    assert_eq!(resolve_artifact_id(&ix, "id1"), None);
}

#[test]
fn checkout_refuses_pending_work() {
    let clean = index_with(vec![("a.png", entry("id1", 1, "ready", "none", false))]);
    assert_eq!(checkout_guard(&clean), Ok(()));
    let staged = index_with(vec![("a.png", entry("id1", 1, "ready", "staged", true))]);
    assert_eq!(checkout_guard(&staged), Err("ERROR: Uncommitted changes. Commit or stash first.".to_string()));
    let mut unpushed = clean;
    unpushed.head = Some("abc".to_string());
    assert!(checkout_guard(&unpushed).is_err());
}

fn change(path: &str, id: &str, rev: u32) -> CommitArtifact {
    CommitArtifact {
        path: path.to_string(),
        artifact_id: id.to_string(),
        revision_base: rev,
        hash: "h".to_string(),
        op: "upsert".to_string(),
    }
}

#[test]
fn checkout_leaves_placeholders() {
    let mut ix = index_with(vec![("old.png", entry("id0", 9, "ready", "staged", true))]);
    let c = Commit {
        id: "c".to_string(),
        parent: None,
        message: "m".to_string(),
        author: "a".to_string(),
        artifacts: vec![change("a.png", "id1", 2), change("b.png", "id2", 5)],
        timestamp: 0,
    };
    reset_to_commit(&mut ix, &c);
    assert_eq!(ix.artifacts.len(), 2);
    assert!(!ix.artifacts.contains_key("old.png"));
    for p in ["a.png", "b.png"] {
        let e = ix.artifacts.get(p).unwrap();
        assert_eq!(e.local_state, "placeholder");
        assert_eq!(e.stage, "none");
        assert!(!e.locked);
        assert!(e.staged.is_none());
    }
    assert_eq!(ix.artifacts.get("b.png").unwrap().revision, 5);
    let p = placeholder_entry("x".to_string(), 1);
    assert_eq!(p.local_state, "placeholder");
}

#[test]
fn stash_decisions() {
    let pushed = entry("id", 3, "ready", "none", false);
    let fresh = entry("id", 0, "ready", "staged", true);
    assert!(needs_stash(None, false));
    assert!(needs_stash(Some(&fresh), false));
    assert!(!needs_stash(Some(&pushed), false));
    assert!(needs_stash(Some(&pushed), true));
    assert_eq!(shelf_ref("alice", 1700000000), "refs/heads/shelves/alice/1700000000");
    assert_eq!(stash_message("alice", 0), "Stash by alice at 0");
}

#[test]
fn status_sorts_files_into_classes() {
    let ix = index_with(vec![
        ("staged.png", entry("i1", 1, "ready", "staged", true)),
        ("clean.png", entry("i2", 1, "ready", "none", false)),
        ("edited.png", entry("i3", 1, "ready", "none", true)),
        ("gone.png", entry("i4", 1, "ready", "none", false)),
    ]);
    let files = vec![
        ("staged.png".to_string(), true),
        ("clean.png".to_string(), false),
        ("edited.png".to_string(), true),
        ("extra.txt".to_string(), true),
    ];
    let exists = vec![true, true, true, false];
    let r = status_report(&ix, &files, &exists);
    assert_eq!(r.staged, vec!["staged.png".to_string()]);
    assert_eq!(r.modified, vec!["edited.png".to_string()]);
    assert_eq!(r.untracked, vec!["extra.txt".to_string()]);
    assert_eq!(r.missing, vec!["gone.png".to_string()]);
    assert!(!r.unpushed);
}

#[test]
fn commit_needs_staged_files() {
    let ix = index_with(vec![("a.png", entry("i1", 1, "ready", "none", false))]);
    assert_eq!(
        staged_paths(&ix),
        Err("ERROR: Nothing to commit. Stage changes with 'rig add' first.".to_string())
    );
    let ix2 = index_with(vec![
        ("a.png", entry("i1", 1, "ready", "staged", true)),
        ("b.png", entry("i2", 1, "ready", "none", false)),
        ("c.png", entry("i3", 1, "ready", "staged", true)),
    ]);
    assert_eq!(staged_paths(&ix2), Ok(vec!["a.png".to_string(), "c.png".to_string()]));
}

#[test]
fn commit_change_checks_double_read() {
    let e = entry("i1", 4, "ready", "staged", true);
    let c = commit_change("a.png", &e, Some(b"abc"), Some(b"abc")).unwrap();
    assert_eq!(c.path, "a.png");
    assert_eq!(c.artifact_id, "i1");
    assert_eq!(c.revision_base, 4);
    assert_eq!(c.hash, "a9993e364706816aba3e25717850c26c9cd0d89d");
    assert_eq!(c.op, "upsert");
    assert_eq!(
        commit_change("a.png", &e, Some(b"abc"), Some(b"abd")).err(),
        Some("ERROR: File changed during commit. Retry.".to_string())
    );
    assert_eq!(
        commit_change("a.png", &e, None, Some(b"abc")).err(),
        Some("ERROR: Staged file not found. File may have been deleted.".to_string())
    );
}

#[test]
fn new_commit_is_identified_by_its_content() {
    let c = new_commit(None, "ab", "c", vec![], b"", 77);
    assert_eq!(c.id, "a9993e364706816aba3e25717850c26c9cd0d89d");
    assert_eq!(c.timestamp, 77);
    assert_eq!(c.author, "c");
    assert_eq!(commit_author(&Some("bob".to_string())), "bob");
    assert_eq!(commit_author(&None), "unknown");
}

#[test]
fn walk_skips_hidden_entries() {
    assert!(skips_entry(".rig"));
    assert!(skips_entry(".git"));
    assert!(skips_entry("target"));
    assert!(!skips_entry("art"));
    assert!(!skips_entry(""));
}

#[test]
fn commit_becomes_unpushed_head() {
    let mut ix = index_with(vec![("a.png", entry("i1", 1, "ready", "staged", true))]);
    record_commit(&mut ix, "abc".to_string());
    assert_eq!(ix.head.as_deref(), Some("abc"));
    assert_eq!(ix.artifacts.len(), 1);
    assert!(checkout_guard(&ix).is_err());
}

#[test]
fn unlock_waits_for_push_of_committed_work() {
    let mut ix = Index::default();
    ix.artifacts.insert("a.png".to_string(), entry("id1", 1, "ready", "staged", true));
    ix.artifacts.insert("b.png".to_string(), entry("id2", 1, "ready", "none", true));
    assert_eq!(unlock_guard(&ix, "a.png"), Ok(()));
    ix.head = Some("c1".to_string());
    assert_eq!(
        unlock_guard(&ix, "a.png"),
        Err("ERROR: Artifact 'a.png' has unpushed commits. Push before unlocking.".to_string())
    );
    assert_eq!(unlock_guard(&ix, "b.png"), Ok(()));
    assert_eq!(unlock_guard(&ix, "c.png"), Ok(()));
}

#[test]
fn unlock_waits_for_stashed_work() {
    let change = |p: &str| CommitArtifact {
        path: p.to_string(),
        artifact_id: p.to_string(),
        revision_base: 1,
        hash: "h".to_string(),
        op: "upsert".to_string(),
    };
    let shelf = Commit {
        id: "s1".to_string(),
        parent: None,
        message: "Stash by a at 1".to_string(),
        author: "a".to_string(),
        artifacts: vec![change("x.png"), change("a.png")],
        timestamp: 1,
    };
    assert_eq!(stash_unlock_guard(&[], "a.png"), Ok(()));
    assert_eq!(
        stash_unlock_guard(&[shelf.clone()], "a.png"),
        Err("ERROR: Artifact 'a.png' has stashed modifications. Restore the stash before unlocking.".to_string())
    );
    assert_eq!(stash_unlock_guard(&[shelf], "b.png"), Ok(()));
}
