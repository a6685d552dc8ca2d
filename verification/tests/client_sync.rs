use rig::protocol::{Artifact, Commit, CommitArtifact, GitModule, Index, IndexArtifact, Revision, StagedInfo};
use rig::server::{apply_push_upload, create_artifact, lock_artifact, AppState, PushMetadata};
use rig::sync::{
    change_revision, check_pull_target, choose_username, clone_index, git_identity, merge_fetched,
    pack_payload, parse_clone_url, parse_pull_spec, pull_destination, pull_targets, push_preflight,
    pushed_refs, record_pulled, sync_after_push, synced_refs, unpack_payload, PullSpec, PullTarget,
    COMPRESSION_THRESHOLD,
};
use rig::table::StrMap;

fn artifact(id: &str, path: &str, revs: &[(u32, bool)], locked_by: Option<&str>) -> Artifact {
    Artifact {
        id: id.to_string(),
        path: path.to_string(),
        latest: revs.len() as u32,
        locked_by: locked_by.map(|s| s.to_string()),
        revisions: revs.iter().map(|(r, c)| Revision::new(*r, b"x", *c)).collect(),
        moved_from: None,
    }
}

fn entry(id: &str, rev: u32, state: &str, locked: bool, owner: Option<&str>) -> IndexArtifact {
    IndexArtifact {
        artifact_id: id.to_string(),
        revision: rev,
        local_state: state.to_string(),
        stage: "none".to_string(),
        locked,
        lock_owner: owner.map(|s| s.to_string()),
        lock_generation: None,
        staged: None,
        moved_from: None,
    }
}

#[test]
fn clone_url_http() {
    let (p, b) = parse_clone_url("http://host:3000/game/").unwrap();
    assert_eq!(p, "game");
    assert_eq!(b, "http://host:3000");
}

#[test]
fn clone_url_ssh_uses_default_server() {
    let (p, b) = parse_clone_url("ssh://rig@localhost:2222/assets").unwrap();
    assert_eq!(p, "assets");
    assert_eq!(b, "http://localhost:3000");
}

#[test]
fn clone_url_without_slash_is_refused() {
    assert_eq!(
        parse_clone_url("justaname"),
        Err("Invalid URL format. Expected http://<server>/<project> or ssh://<user>@<host>:<port>/<project>".to_string())
    );
}

#[test]
fn username_choice() {
    assert_eq!(choose_username(Some("given".to_string()), Some("git".to_string()), "typed"), "given");
    assert_eq!(choose_username(None, Some("git".to_string()), "  typed \n"), "typed");
    assert_eq!(choose_username(None, Some("git".to_string()), "  \n"), "git");
    assert_eq!(choose_username(None, None, ""), "unknown");
}

#[test]
fn git_identity_forms() {
    assert_eq!(
        git_identity(Some("Ann Lee\n".to_string()), Some("ann@x.org\n".to_string())),
        Some("Ann Lee <ann@x.org>".to_string())
    );
    assert_eq!(git_identity(Some("Ann".to_string()), None), Some("Ann".to_string()));
    assert_eq!(git_identity(None, Some(" a@b ".to_string())), Some("<a@b>".to_string()));
    assert_eq!(git_identity(None, None), None);
}

#[test]
fn clone_leaves_placeholders() {
    let mut arts = StrMap::new();
    arts.insert("id1".to_string(), artifact("id1", "a.png", &[(1, false), (2, false)], Some("bob")));
    arts.insert("id2".to_string(), artifact("id2", "dir/b.png", &[(1, false)], None));
    let ix = clone_index(&arts, StrMap::new());
    assert_eq!(ix.branch, "main");
    assert!(ix.head.is_none());
    let a = ix.artifacts.get("a.png").unwrap();
    assert_eq!(a.artifact_id, "id1");
    assert_eq!(a.revision, 2);
    assert_eq!(a.local_state, "placeholder");
    assert!(!a.locked);
    assert!(a.lock_owner.is_none());
    assert!(ix.artifacts.contains_key("dir/b.png"));
}

#[test]
fn refs_after_fetch_and_push() {
    let empty: StrMap<String> = StrMap::new();
    assert_eq!(synced_refs(&empty, "abc"), vec![("refs/heads/main".to_string(), "abc".to_string())]);
    assert!(synced_refs(&empty, "").is_empty());
    let mut refs = StrMap::new();
    refs.insert("refs/heads/dev".to_string(), "d1".to_string());
    assert_eq!(synced_refs(&refs, "abc"), vec![("refs/heads/dev".to_string(), "d1".to_string())]);
    assert!(pushed_refs(&refs, "").is_empty());
    assert_eq!(pushed_refs(&refs, "x"), vec![("refs/heads/dev".to_string(), "d1".to_string())]);
}

#[test]
fn fetch_keeps_local_work() {
    let mut ix = Index::default();
    let mut staged = entry("id1", 1, "ready", true, Some("alice"));
    staged.stage = "staged".to_string();
    staged.staged = Some(StagedInfo { mtime: 5, size: 6 });
    ix.artifacts.insert("a.png".to_string(), staged);
    let mut arts = StrMap::new();
    arts.insert("id1".to_string(), artifact("id1", "a.png", &[(1, false), (2, false)], None));
    arts.insert("id2".to_string(), artifact("id2", "b.png", &[(1, false)], Some("bob")));
    let mut mods = StrMap::new();
    mods.insert("libs/x".to_string(), GitModule { path: "libs/x".to_string(), url: "u".to_string(), commit: "c".to_string() });
    merge_fetched(&mut ix, &arts, mods);
    let a = ix.artifacts.get("a.png").unwrap();
    assert_eq!(a.revision, 2);
    assert_eq!(a.local_state, "ready");
    assert_eq!(a.stage, "staged");
    assert!(a.staged.is_some());
    assert!(!a.locked);
    let b = ix.artifacts.get("b.png").unwrap();
    assert_eq!(b.local_state, "placeholder");
    assert!(b.locked);
    assert_eq!(b.lock_owner.as_deref(), Some("bob"));
    assert!(ix.git_modules.contains_key("libs/x"));
}

#[test]
fn push_clears_staging() {
    let mut ix = Index::default();
    let mut e = entry("id1", 1, "ready", true, Some("alice"));
    e.stage = "staged".to_string();
    e.staged = Some(StagedInfo { mtime: 1, size: 1 });
    ix.artifacts.insert("a.png".to_string(), e);
    ix.head = Some("local".to_string());
    let mut arts = StrMap::new();
    arts.insert("id1".to_string(), artifact("id1", "a.png", &[(1, false), (2, false)], None));
    arts.insert("id9".to_string(), artifact("id9", "z.png", &[(1, false)], None));
    sync_after_push(&mut ix, &arts, StrMap::new());
    assert!(ix.head.is_none());
    let a = ix.artifacts.get("a.png").unwrap();
    assert_eq!(a.revision, 2);
    assert_eq!(a.stage, "none");
    assert!(a.staged.is_none());
    assert!(a.locked);
    assert_eq!(a.local_state, "ready");
    let z = ix.artifacts.get("z.png").unwrap();
    assert_eq!(z.local_state, "placeholder");
    assert!(!z.locked);
}

fn staged_index(path: &str, hash_mtime: u64, size: u64) -> Index {
    let mut ix = Index::default();
    let mut e = entry("id1", 1, "ready", true, Some("alice"));
    e.stage = "staged".to_string();
    e.staged = Some(StagedInfo { mtime: hash_mtime, size });
    ix.artifacts.insert(path.to_string(), e);
    ix
}

fn committed(path: &str, hash: &str) -> CommitArtifact {
    CommitArtifact {
        path: path.to_string(),
        artifact_id: "id1".to_string(),
        revision_base: 1,
        hash: hash.to_string(),
        op: "upsert".to_string(),
    }
}

#[test]
fn preflight_trusts_unchanged_stamp() {
    let ix = staged_index("a.png", 100, 3);
    let c = committed("a.png", "not-rehashed");
    assert_eq!(push_preflight(&ix, &c, None, 3, 100, 200, b"abc"), Ok(()));
}

#[test]
fn preflight_rehashes_changed_file() {
    let ix = staged_index("a.png", 100, 3);
    let good = committed("a.png", "a9993e364706816aba3e25717850c26c9cd0d89d");
    assert_eq!(push_preflight(&ix, &good, None, 4, 100, 200, b"abc"), Ok(()));
    let bad = committed("a.png", "0000");
    assert_eq!(
        push_preflight(&ix, &bad, None, 4, 100, 200, b"abc"),
        Err("ERROR: File 'a.png' changed after commit. Re-run 'rig add' and 'rig commit'.".to_string())
    );
    // staged in this very second: hashed again
    assert!(push_preflight(&ix, &bad, None, 3, 100, 100, b"abc").is_err());
}

#[test]
fn preflight_errors() {
    let ix = Index::default();
    assert_eq!(
        push_preflight(&ix, &committed("x.png", "h"), None, 1, 1, 1, b""),
        Err("Artifact 'x.png' not found in index".to_string())
    );
    let mut ix2 = Index::default();
    ix2.artifacts.insert("x.png".to_string(), entry("id1", 1, "ready", true, None));
    assert_eq!(
        push_preflight(&ix2, &committed("x.png", "h"), None, 1, 1, 1, b""),
        Err("Artifact 'x.png' was not staged via 'rig add'".to_string())
    );
}

#[test]
fn small_payload_is_sent_as_is() {
    let (p, c) = pack_payload(b"tiny".to_vec()).unwrap();
    assert_eq!(p, b"tiny".to_vec());
    assert!(!c);
    assert_eq!(unpack_payload(p, c), Some(b"tiny".to_vec()));
}

#[test]
fn large_payload_roundtrips_compressed() {
    let data = vec![7u8; COMPRESSION_THRESHOLD + 10];
    let (p, c) = pack_payload(data.clone()).unwrap();
    assert!(c);
    assert!(p.len() < data.len());
    assert_ne!(p, data);
    assert_eq!(unpack_payload(p, c), Some(data));
}

#[test]
fn incompressible_payload_is_sent_as_is() {
    let mut data = Vec::with_capacity(COMPRESSION_THRESHOLD + 1);
    let mut x: u32 = 12345;
    while data.len() < COMPRESSION_THRESHOLD + 1 {
        x = x.wrapping_mul(1103515245).wrapping_add(12345);
        data.push((x >> 16) as u8);
    }
    let (p, c) = pack_payload(data.clone()).unwrap();
    assert!(!c);
    assert_eq!(p, data);
}

#[test]
fn corrupt_compressed_payload_is_refused() {
    assert_eq!(unpack_payload(b"not gzip".to_vec(), true), None);
}

#[test]
fn pull_spec_forms() {
    let s = parse_pull_spec("hero.png#3", None);
    assert_eq!(s.path, "hero.png");
    assert_eq!(s.rev, Some(3));
    assert!(s.commit.is_none());
    let s = parse_pull_spec("hero.png@abc", None);
    assert_eq!(s.path, "hero.png");
    assert_eq!(s.commit.as_deref(), Some("abc"));
    let s = parse_pull_spec("hero.png#x", None);
    assert_eq!(s.path, "hero.png");
    assert_eq!(s.rev, None);
    let s = parse_pull_spec("hero.png", Some("#7".to_string()));
    assert_eq!(s.rev, Some(7));
    let s = parse_pull_spec("hero.png", Some("12".to_string()));
    assert_eq!(s.rev, Some(12));
    let s = parse_pull_spec("hero.png", Some("@c1".to_string()));
    assert_eq!(s.commit.as_deref(), Some("c1"));
    assert!(s.rev.is_none());
    let s = parse_pull_spec("a#2", Some("zz".to_string()));
    assert_eq!(s.rev, Some(2));
    assert!(parse_pull_spec("a", None).is_standard(false));
    assert!(!parse_pull_spec("a", None).is_standard(true));
    assert!(!s.is_standard(false));
}

fn remote() -> StrMap<Artifact> {
    let mut arts = StrMap::new();
    arts.insert("id1".to_string(), artifact("id1", "art/a.png", &[(1, false), (2, true)], None));
    arts.insert("id2".to_string(), artifact("id2", "art/b.png", &[(1, false)], None));
    arts.insert("id3".to_string(), artifact("id3", "snd/c.wav", &[(1, false)], None));
    arts
}

fn commit_with(id: &str, changes: Vec<CommitArtifact>) -> Commit {
    Commit {
        id: id.to_string(),
        parent: None,
        message: "m".to_string(),
        author: "a".to_string(),
        artifacts: changes,
        timestamp: 0,
    }
}

#[test]
fn pull_targets_by_prefix() {
    let spec = parse_pull_spec("art/", None);
    let t = pull_targets(&spec, &remote(), &StrMap::new(), &Index::default()).unwrap();
    let v: Vec<(String, String, u32)> = t.iter().map(|x| (x.path.clone(), x.id.clone(), x.rev)).collect();
    assert_eq!(
        v,
        vec![
            ("art/a.png".to_string(), "id1".to_string(), 2),
            ("art/b.png".to_string(), "id2".to_string(), 1)
        ]
    );
}

#[test]
fn pull_targets_star_and_pinned() {
    let spec = parse_pull_spec("*", Some("1".to_string()));
    let t = pull_targets(&spec, &remote(), &StrMap::new(), &Index::default()).unwrap();
    assert_eq!(t.len(), 3);
    assert!(t.iter().all(|x| x.rev == 1));
    assert_eq!(t[2].path, "snd/c.wav");
}

#[test]
fn pull_targets_at_commit() {
    let mut commits = StrMap::new();
    commits.insert(
        "c1".to_string(),
        commit_with("c1", vec![CommitArtifact {
            path: "art/a.png".to_string(),
            artifact_id: "id1".to_string(),
            revision_base: 1,
            hash: "h".to_string(),
            op: "upsert".to_string(),
        }]),
    );
    let spec = parse_pull_spec("art/@c1", None);
    let t = pull_targets(&spec, &remote(), &commits, &Index::default()).unwrap();
    assert_eq!(t[0].rev, 1);
    assert_eq!(t[1].rev, 1);
    let spec2 = parse_pull_spec("art/@zz", None);
    assert_eq!(
        pull_targets(&spec2, &remote(), &commits, &Index::default()).err(),
        Some("Commit zz not found".to_string())
    );
    assert_eq!(change_revision(&commits.get("c1").unwrap().artifacts, "id1"), Some(1));
    assert_eq!(change_revision(&commits.get("c1").unwrap().artifacts, "id2"), None);
}

#[test]
fn pull_targets_fall_back_to_index_and_report_missing() {
    let mut ix = Index::default();
    ix.artifacts.insert("local/x.png".to_string(), entry("idx", 4, "placeholder", false, None));
    let spec = parse_pull_spec("local/", None);
    let t = pull_targets(&spec, &remote(), &StrMap::new(), &ix).unwrap();
    assert_eq!(t.len(), 1);
    assert_eq!(t[0].id, "idx");
    assert_eq!(t[0].rev, 4);
    let spec2 = parse_pull_spec("nothing", None);
    assert_eq!(
        pull_targets(&spec2, &remote(), &StrMap::new(), &ix).err(),
        Some("Path 'nothing' not found".to_string())
    );
}

#[test]
fn pull_check_outcomes() {
    let arts = remote();
    let mut ix = Index::default();
    ix.artifacts.insert("art/a.png".to_string(), entry("id1", 1, "ready", true, Some("alice")));
    let spec = parse_pull_spec("art/a.png", None);
    let t = PullTarget { path: "art/a.png".to_string(), id: "id1".to_string(), rev: 2 };
    assert_eq!(
        check_pull_target(&spec, false, &ix, &Some("alice".to_string()), &arts, &t),
        Err("ERROR: File 'art/a.png' is locked by you. Push or unlock before pulling to avoid losing local changes.".to_string())
    );
    assert_eq!(check_pull_target(&spec, false, &ix, &Some("bob".to_string()), &arts, &t), Ok(true));
    assert_eq!(check_pull_target(&spec, true, &ix, &Some("alice".to_string()), &arts, &t), Ok(true));
    let t9 = PullTarget { path: "art/a.png".to_string(), id: "id1".to_string(), rev: 9 };
    assert_eq!(
        check_pull_target(&spec, true, &ix, &None, &arts, &t9),
        Err("Revision 9 not found for art/a.png".to_string())
    );
    let tx = PullTarget { path: "q.png".to_string(), id: "nope".to_string(), rev: 1 };
    assert_eq!(
        check_pull_target(&spec, true, &ix, &None, &arts, &tx),
        Err("Artifact details for q.png not found on server".to_string())
    );
}

#[test]
fn pull_destinations() {
    let t = PullTarget { path: "art/a.png".to_string(), id: "id1".to_string(), rev: 2 };
    let plain = parse_pull_spec("art/a.png", None);
    assert_eq!(pull_destination(&plain, &None, false, false, &t), "art/a.png");
    let pinned = parse_pull_spec("art/a.png#2", None);
    assert_eq!(pull_destination(&pinned, &None, false, false, &t), "art/a.png@2");
    let out = Some("copy.png".to_string());
    assert_eq!(pull_destination(&plain, &out, false, false, &t), "copy.png");
    assert_eq!(pull_destination(&plain, &Some("outdir".to_string()), true, false, &t), "outdir/art/a.png");
    let star: PullSpec = parse_pull_spec("*", None);
    assert_eq!(pull_destination(&star, &Some("o".to_string()), false, false, &t), "o/art/a.png");
}

#[test]
fn pulled_file_becomes_ready() {
    let mut ix = Index::default();
    ix.artifacts.insert("a.png".to_string(), entry("id1", 1, "placeholder", true, Some("al")));
    record_pulled(&mut ix, &PullTarget { path: "a.png".to_string(), id: "id1".to_string(), rev: 3 });
    let a = ix.artifacts.get("a.png").unwrap();
    assert_eq!(a.local_state, "ready");
    assert_eq!(a.revision, 3);
    assert!(a.locked);
    record_pulled(&mut ix, &PullTarget { path: "n.png".to_string(), id: "id7".to_string(), rev: 1 });
    let n = ix.artifacts.get("n.png").unwrap();
    assert_eq!(n.artifact_id, "id7");
    assert_eq!(n.local_state, "ready");
    assert!(!n.locked);
}

#[test]
fn pushed_revision_is_pulled() {
    // client packs, server stores, a pull of that revision finds the payload
    let data = vec![1u8; COMPRESSION_THRESHOLD + 100];
    let (payload, compressed) = pack_payload(data.clone()).unwrap();
    let mut s = AppState { project_dir: "/p".to_string(), artifacts: StrMap::new(), git_modules: StrMap::new() };
    create_artifact(&mut s, "big.bin", b"v1");
    lock_artifact(&mut s, "big.bin", "alice", 1);
    let mut comp = StrMap::new();
    comp.insert("big.bin".to_string(), compressed);
    let meta = PushMetadata {
        commit: commit_with("c", vec![]),
        artifact_compression: comp,
        artifact_paths: StrMap::new(),
        ref_name: None,
    };
    apply_push_upload(&mut s, &meta, "big.bin", &payload);
    let spec = parse_pull_spec("big.bin#2", None);
    let t = PullTarget { path: "big.bin".to_string(), id: "big.bin".to_string(), rev: 2 };
    let c = check_pull_target(&spec, false, &Index::default(), &None, &s.artifacts, &t).unwrap();
    assert_eq!(c, compressed);
    assert_eq!(unpack_payload(payload, c), Some(data));
}

#[test]
fn preflight_refuses_push_over_newer_remote() {
    let ix = staged_index("a.png", 100, 3);
    let c = committed("a.png", "not-rehashed");
    assert_eq!(
        push_preflight(&ix, &c, Some(2), 3, 100, 200, b"abc"),
        Err("ERROR: Remote updated. Run 'rig pull' first.".to_string())
    );
    assert_eq!(push_preflight(&ix, &c, Some(1), 3, 100, 200, b"abc"), Ok(()));
}

#[test]
fn pull_spec_at_number_is_revision() {
    let s = parse_pull_spec("file.png@10", None);
    assert_eq!(s.path, "file.png");
    assert_eq!(s.rev, Some(10));
    assert!(s.commit.is_none());
    let s = parse_pull_spec("file.png", Some("@7".to_string()));
    assert_eq!(s.rev, None);
    assert_eq!(s.commit.as_deref(), Some("7"));
    let s = parse_pull_spec("file.png@c1", None);
    assert_eq!(s.rev, None);
    assert_eq!(s.commit.as_deref(), Some("c1"));
}
