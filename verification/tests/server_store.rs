use rig::protocol::{Artifact, Commit, CommitArtifact, GitModule, Revision};
use rig::server::{
    add_revision, apply_push_upload, artifact_dir, artifact_info, artifact_list, commit_id,
    create_artifact, get_rev_filename, lock_artifact, lock_state, lock_status, new_project_index,
    plan_create_artifact, plan_revision, push_upload_revision, rebase_commit, record_push,
    revision_list, seal_commit, set_git_module, unlock_artifact, unlock_needs_admin_check,
    unlock_status, upload_bytes, AppState, CreateArtifactRequest, LockDecision, PushMetadata,
    Status, UnlockDecision,
};
use rig::server::{project_creation_reply, ProjectCreation};
use rig::server::{accept_push, path_in_use, payload_check, push_check};
use rig::codec::content_hash;
use rig::table::StrMap;

fn empty_state() -> AppState {
    AppState {
        project_dir: "/srv/proj".to_string(),
        artifacts: StrMap::new(),
        git_modules: StrMap::new(),
    }
}

fn state_with(path: &str) -> AppState {
    let mut s = empty_state();
    create_artifact(&mut s, path, b"first");
    s
}

fn holder(s: &AppState, id: &str) -> Option<String> {
    s.artifacts.get(id).and_then(|a| a.locked_by.clone())
}

#[test]
fn rev_filename_keeps_extension() {
    assert_eq!(get_rev_filename("hero.png", 3), "rev3.png");
    assert_eq!(get_rev_filename("models/tree.fbx", 12), "rev12.fbx");
    assert_eq!(get_rev_filename("README", 1), "rev1");
    assert_eq!(get_rev_filename(".hidden", 2), "rev2");
    assert_eq!(get_rev_filename("archive.tar.gz", 7), "rev7.gz");
}

#[test]
fn artifact_dir_joins_store() {
    assert_eq!(artifact_dir("/srv/proj", "hero.png"), "/srv/proj/artifacts/hero.png");
    assert_eq!(artifact_dir("/srv/proj/", "a"), "/srv/proj/artifacts/a");
}

#[test]
fn upload_bytes_decodes_base64() {
    assert_eq!(upload_bytes("aGVsbG8="), b"hello".to_vec());
    assert_eq!(upload_bytes("not base64!"), Vec::<u8>::new());
}

#[test]
fn lock_of_free_artifact_is_granted() {
    let mut s = state_with("hero.png");
    let (d, resp) = lock_artifact(&mut s, "hero.png", "alice", 1);
    assert_eq!(d, LockDecision::Granted);
    assert!(resp.locked);
    assert_eq!(resp.user.as_deref(), Some("alice"));
    assert_eq!(holder(&s, "hero.png").as_deref(), Some("alice"));
    assert_eq!(lock_status(d), Status::Success);
}

#[test]
fn lock_is_exclusive_between_users() {
    let mut s = state_with("hero.png");
    lock_artifact(&mut s, "hero.png", "alice", 1);
    let (d, resp) = lock_artifact(&mut s, "hero.png", "bob", 1);
    assert_eq!(d, LockDecision::Held);
    assert!(!resp.locked);
    assert_eq!(resp.user.as_deref(), Some("alice"));
    assert_eq!(holder(&s, "hero.png").as_deref(), Some("alice"));
    assert_eq!(lock_status(d), Status::Conflict);
}

#[test]
fn relock_by_holder_changes_nothing() {
    let mut s = state_with("hero.png");
    lock_artifact(&mut s, "hero.png", "alice", 1);
    let (d, resp) = lock_artifact(&mut s, "hero.png", "alice", 1);
    assert_eq!(d, LockDecision::AlreadyHeld);
    assert!(resp.locked);
    assert_eq!(holder(&s, "hero.png").as_deref(), Some("alice"));
}

#[test]
fn lock_of_unknown_artifact_is_missing() {
    let mut s = empty_state();
    let (d, resp) = lock_artifact(&mut s, "ghost.png", "alice", 1);
    assert_eq!(d, LockDecision::Missing);
    assert!(!resp.locked);
    assert!(resp.user.is_none());
    assert_eq!(lock_status(d), Status::NotFound);
    assert_eq!(Status::NotFound.code(), 404);
}

#[test]
fn unlock_by_other_user_is_denied_without_force() {
    let mut s = state_with("hero.png");
    lock_artifact(&mut s, "hero.png", "alice", 1);
    let (d, _) = unlock_artifact(&mut s, "hero.png", "bob", false, true);
    assert_eq!(d, UnlockDecision::Denied);
    assert_eq!(holder(&s, "hero.png").as_deref(), Some("alice"));
    let (d2, _) = unlock_artifact(&mut s, "hero.png", "bob", true, false);
    assert_eq!(d2, UnlockDecision::Denied);
    assert_eq!(unlock_status(d2), Status::Forbidden);
    assert!(unlock_needs_admin_check(&s, "hero.png", "bob", true));
    assert!(!unlock_needs_admin_check(&s, "hero.png", "alice", true));
    assert!(!unlock_needs_admin_check(&s, "hero.png", "bob", false));
}

#[test]
fn forced_unlock_by_admin_releases() {
    let mut s = state_with("hero.png");
    lock_artifact(&mut s, "hero.png", "alice", 1);
    let (d, resp) = unlock_artifact(&mut s, "hero.png", "bob", true, true);
    assert_eq!(d, UnlockDecision::Released);
    assert!(!resp.locked);
    assert_eq!(holder(&s, "hero.png"), None);
}

#[test]
fn lock_then_unlock_restores_state() {
    let mut s = state_with("hero.png");
    lock_artifact(&mut s, "hero.png", "alice", 1);
    let (d, _) = unlock_artifact(&mut s, "hero.png", "alice", false, false);
    assert_eq!(d, UnlockDecision::Released);
    assert_eq!(unlock_status(d), Status::Success);
    let a = s.artifacts.get("hero.png").unwrap();
    assert_eq!(a.locked_by, None);
    assert_eq!(a.latest, 1);
    assert_eq!(a.revisions.len(), 1);
    let (d2, _) = unlock_artifact(&mut s, "hero.png", "alice", false, false);
    assert_eq!(d2, UnlockDecision::NotLocked);
    let (d3, _) = unlock_artifact(&mut s, "nope", "alice", false, false);
    assert_eq!(d3, UnlockDecision::Missing);
    assert_eq!(unlock_status(d3), Status::NotFound);
}

#[test]
fn lock_state_reports_holder() {
    let mut s = state_with("hero.png");
    assert!(!lock_state(&s, "hero.png").locked);
    lock_artifact(&mut s, "hero.png", "alice", 1);
    let r = lock_state(&s, "hero.png");
    assert!(r.locked);
    assert_eq!(r.user.as_deref(), Some("alice"));
    assert!(!lock_state(&s, "other").locked);
}

#[test]
fn create_refuses_taken_path() {
    let s = state_with("hero.png");
    let req = CreateArtifactRequest {
        path: "hero.png".to_string(),
        content_base64: "aGVsbG8=".to_string(),
        _message: None,
    };
    assert!(matches!(plan_create_artifact(&s, &req), Err(Status::Conflict)));
    let req2 = CreateArtifactRequest {
        path: "new.psd".to_string(),
        content_base64: "aGVsbG8=".to_string(),
        _message: None,
    };
    let (name, data) = plan_create_artifact(&s, &req2).unwrap();
    assert_eq!(name, "rev1.psd");
    assert_eq!(data, b"hello".to_vec());
}

#[test]
fn created_artifact_starts_at_revision_one() {
    let s = state_with("hero.png");
    let a = s.artifacts.get("hero.png").unwrap();
    assert_eq!(a.id, "hero.png");
    assert_eq!(a.latest, 1);
    assert_eq!(a.revisions[0].rev, 1);
    assert_eq!(a.revisions[0].hash, rig::codec::content_hash(b"first"));
    assert!(!a.revisions[0].compressed);
}

#[test]
fn revision_needs_lock() {
    let s = state_with("hero.png");
    assert!(matches!(plan_revision(&s, "hero.png"), Err(Status::Conflict)));
    assert!(matches!(plan_revision(&s, "missing"), Err(Status::NotFound)));
}

#[test]
fn revision_extends_history() {
    let mut s = state_with("hero.png");
    lock_artifact(&mut s, "hero.png", "alice", 1);
    let (rev, name) = plan_revision(&s, "hero.png").unwrap();
    assert_eq!(rev, 2);
    assert_eq!(name, "rev2.png");
    let got = add_revision(&mut s, "hero.png", b"second");
    assert_eq!(got, 2);
    let a = s.artifacts.get("hero.png").unwrap();
    assert_eq!(a.latest, 2);
    let revs: Vec<u32> = a.revisions.iter().map(|r| r.rev).collect();
    assert_eq!(revs, vec![1, 2]);
    assert_eq!(a.locked_by.as_deref(), Some("alice"));
    let listed: Vec<u32> = revision_list(&s, "hero.png").iter().map(|r| r.revision).collect();
    assert_eq!(listed, vec![1, 2]);
    assert!(revision_list(&s, "missing").is_empty());
}

#[test]
fn listings_follow_table() {
    let mut s = state_with("b.png");
    create_artifact(&mut s, "a.png", b"x");
    let l = artifact_list(&s);
    assert_eq!(l.len(), 2);
    assert_eq!(l[0].id, "b.png");
    assert_eq!(l[1].path, "a.png");
    let info = artifact_info(&s, "a.png");
    assert_eq!(info.path, "a.png");
    assert_eq!(info.latest_revision, 1);
    let none = artifact_info(&s, "zzz");
    assert_eq!(none.id, "");
    assert_eq!(none.latest_revision, 0);
}

fn push_meta(id: &str, compressed: bool, path: &str) -> PushMetadata {
    let mut comp = StrMap::new();
    comp.insert(id.to_string(), compressed);
    let mut paths = StrMap::new();
    paths.insert(id.to_string(), path.to_string());
    PushMetadata {
        commit: Commit {
            id: "c1".to_string(),
            parent: None,
            message: "m".to_string(),
            author: "alice".to_string(),
            artifacts: vec![],
            timestamp: 0,
        },
        artifact_compression: comp,
        artifact_paths: paths,
        ref_name: None,
    }
}

#[test]
fn push_bumps_revision_and_releases_lock() {
    let mut s = state_with("hero.png");
    lock_artifact(&mut s, "hero.png", "alice", 1);
    assert_eq!(push_upload_revision(&s, "hero.png"), 2);
    let meta = push_meta("hero.png", true, "hero.png");
    apply_push_upload(&mut s, &meta, "hero.png", b"pushed");
    let a = s.artifacts.get("hero.png").unwrap();
    assert_eq!(a.latest, 2);
    assert_eq!(a.locked_by, None);
    assert!(a.revisions[1].compressed);
    assert_eq!(a.revisions[1].hash, rig::codec::content_hash(b"pushed"));
}

#[test]
fn push_of_new_artifact_starts_at_one() {
    let mut s = empty_state();
    assert_eq!(push_upload_revision(&s, "uuid-1"), 1);
    let meta = push_meta("uuid-1", false, "art/new.png");
    apply_push_upload(&mut s, &meta, "uuid-1", b"data");
    let a = s.artifacts.get("uuid-1").unwrap();
    assert_eq!(a.path, "art/new.png");
    assert_eq!(a.latest, 1);
    assert_eq!(a.revisions.len(), 1);
    assert_eq!(a.revisions[0].rev, 1);
}

#[test]
fn store_keeps_histories_well_formed() {
    let mut s = state_with("hero.png");
    for i in 0..4u32 {
        let seen = s.artifacts.get("hero.png").unwrap().latest;
        lock_artifact(&mut s, "hero.png", "alice", seen);
        if i % 2 == 0 {
            add_revision(&mut s, "hero.png", b"r");
        } else {
            let meta = push_meta("hero.png", false, "hero.png");
            apply_push_upload(&mut s, &meta, "hero.png", b"p");
        }
        let a = s.artifacts.get("hero.png").unwrap();
        assert_eq!(a.latest as usize, a.revisions.len());
        for (k, r) in a.revisions.iter().enumerate() {
            assert_eq!(r.rev as usize, k + 1);
        }
    }
}

#[test]
fn rebase_sets_bases_to_server_revisions() {
    let mut s = state_with("hero.png");
    lock_artifact(&mut s, "hero.png", "alice", 1);
    add_revision(&mut s, "hero.png", b"two");
    let c = Commit {
        id: "x".to_string(),
        parent: None,
        message: "msg".to_string(),
        author: "alice".to_string(),
        artifacts: vec![
            CommitArtifact {
                path: "hero.png".to_string(),
                artifact_id: "hero.png".to_string(),
                revision_base: 0,
                hash: "h".to_string(),
                op: "upsert".to_string(),
            },
            CommitArtifact {
                path: "new.png".to_string(),
                artifact_id: "new-id".to_string(),
                revision_base: 5,
                hash: "h2".to_string(),
                op: "upsert".to_string(),
            },
        ],
        timestamp: 9,
    };
    let r = rebase_commit(&s, c);
    assert_eq!(r.artifacts[0].revision_base, 2);
    assert_eq!(r.artifacts[1].revision_base, 5);
    assert_eq!(r.timestamp, 9);
}

#[test]
fn commit_id_is_sha1_of_parts() {
    // sha1("abc") with no parent, empty message and author
    assert_eq!(commit_id(&None, "", "", b"abc"), "a9993e364706816aba3e25717850c26c9cd0d89d");
    assert_eq!(
        commit_id(&Some("a".to_string()), "b", "", b"c"),
        "a9993e364706816aba3e25717850c26c9cd0d89d"
    );
    let c = Commit {
        id: "local".to_string(),
        parent: None,
        message: "ab".to_string(),
        author: "c".to_string(),
        artifacts: vec![],
        timestamp: 1,
    };
    let sealed = seal_commit(c, b"");
    assert_eq!(sealed.id, "a9993e364706816aba3e25717850c26c9cd0d89d");
    assert_eq!(sealed.message, "ab");
}

#[test]
fn record_push_moves_ref_and_stores_commit() {
    let mut refs: StrMap<String> = StrMap::new();
    let mut commits: StrMap<Commit> = StrMap::new();
    let c = Commit {
        id: "abc".to_string(),
        parent: None,
        message: "m".to_string(),
        author: "a".to_string(),
        artifacts: vec![],
        timestamp: 0,
    };
    record_push(&mut refs, &mut commits, None, c);
    assert_eq!(refs.get("refs/heads/main").map(|s| s.as_str()), Some("abc"));
    assert!(commits.contains_key("abc"));
    let c2 = Commit {
        id: "def".to_string(),
        parent: Some("abc".to_string()),
        message: "m2".to_string(),
        author: "a".to_string(),
        artifacts: vec![],
        timestamp: 1,
    };
    record_push(&mut refs, &mut commits, Some("refs/heads/dev".to_string()), c2);
    assert_eq!(refs.get("refs/heads/dev").map(|s| s.as_str()), Some("def"));
    assert_eq!(refs.get("refs/heads/main").map(|s| s.as_str()), Some("abc"));
}

#[test]
fn git_module_is_recorded() {
    let mut s = empty_state();
    set_git_module(
        &mut s,
        "libs/x".to_string(),
        GitModule { path: "libs/x".to_string(), url: "u".to_string(), commit: "c".to_string() },
    );
    assert_eq!(s.git_modules.get("libs/x").unwrap().commit, "c");
}

#[test]
fn new_project_index_is_empty() {
    let ix = new_project_index("game");
    assert_eq!(ix.project, "game");
    assert_eq!(ix.server_url.as_deref(), Some("http://localhost:3000"));
    assert_eq!(ix.latest_commit, "");
    assert_eq!(ix.artifacts.len(), 0);
    assert_eq!(ix.commits.len(), 0);
}

#[test]
fn revision_new_hashes_content() {
    let r = Revision::new(4, b"abc", true);
    assert_eq!(r.rev, 4);
    assert_eq!(r.hash, "a9993e364706816aba3e25717850c26c9cd0d89d");
    assert!(r.compressed);
    let a = Artifact {
        id: "i".to_string(),
        path: "p".to_string(),
        latest: 4,
        locked_by: None,
        revisions: vec![r],
        moved_from: None,
    };
    assert_eq!(a.clone().revisions[0].rev, 4);
}

#[test]
fn status_codes() {
    assert_eq!(Status::Success.code(), 200);
    assert_eq!(Status::Created.code(), 201);
    assert_eq!(Status::NoContent.code(), 204);
    assert_eq!(Status::BadRequest.code(), 400);
    assert_eq!(Status::Unauthorized.code(), 401);
    assert_eq!(Status::Forbidden.code(), 403);
    assert_eq!(Status::Conflict.code(), 409);
    assert_eq!(Status::Gone.code(), 410);
    assert_eq!(Status::InternalServerError.code(), 500);
}

#[test]
fn project_creation_replies() {
    let (s, m) = project_creation_reply(ProjectCreation::Exists);
    assert_eq!(s, Status::Conflict);
    assert_eq!(m, "Project already exists");
    let (s, m) = project_creation_reply(ProjectCreation::LoadFailed("disk".to_string()));
    assert_eq!(s, Status::InternalServerError);
    assert_eq!(m, "Failed to load project: disk");
    let (s, m) = project_creation_reply(ProjectCreation::Created);
    assert_eq!(s, Status::Created);
    assert_eq!(m, "Project created successfully");
    assert_eq!(project_creation_reply(ProjectCreation::NoToken).0, Status::Unauthorized);
    assert_eq!(project_creation_reply(ProjectCreation::BadSubject).0, Status::BadRequest);
}

#[test]
fn admin_rights_matter_only_when_forcing() {
    for may in [false, true] {
        let mut s = state_with("hero.png");
        lock_artifact(&mut s, "hero.png", "alice", 1);
        let (d, _) = unlock_artifact(&mut s, "hero.png", "alice", true, may);
        assert_eq!(d, UnlockDecision::Released);
        let mut t = state_with("hero.png");
        lock_artifact(&mut t, "hero.png", "alice", 1);
        let (d2, _) = unlock_artifact(&mut t, "hero.png", "bob", false, may);
        assert_eq!(d2, UnlockDecision::Denied);
        assert!(!unlock_needs_admin_check(&t, "hero.png", "bob", false));
    }
}

#[test]
fn histories_are_append_only() {
    let mut s = state_with("hero.png");
    let first = s.artifacts.get("hero.png").unwrap().revisions[0].hash.clone();
    lock_artifact(&mut s, "hero.png", "alice", 1);
    add_revision(&mut s, "hero.png", b"second");
    let second = s.artifacts.get("hero.png").unwrap().revisions[1].hash.clone();
    unlock_artifact(&mut s, "hero.png", "alice", false, false);
    let meta = push_meta("hero.png", false, "hero.png");
    apply_push_upload(&mut s, &meta, "hero.png", b"third");
    let a = s.artifacts.get("hero.png").unwrap();
    assert_eq!(a.revisions.len(), 3);
    assert_eq!(a.revisions[0].hash, first);
    assert_eq!(a.revisions[1].hash, second);
}

#[test]
fn outdated_copy_gets_no_lock() {
    let mut s = state_with("hero.png");
    lock_artifact(&mut s, "hero.png", "alice", 1);
    add_revision(&mut s, "hero.png", b"two");
    unlock_artifact(&mut s, "hero.png", "alice", false, false);
    let (d, resp) = lock_artifact(&mut s, "hero.png", "bob", 1);
    assert_eq!(d, LockDecision::Outdated);
    assert!(!resp.locked);
    assert_eq!(resp.user, None);
    assert_eq!(holder(&s, "hero.png"), None);
    assert_eq!(lock_status(d), Status::PreconditionFailed);
    assert_eq!(lock_status(d).code(), 412);
    let (d2, resp2) = lock_artifact(&mut s, "hero.png", "bob", 2);
    assert_eq!(d2, LockDecision::Granted);
    assert!(resp2.locked);
}

fn change(id: &str, base: u32, data: &[u8]) -> CommitArtifact {
    CommitArtifact {
        path: id.to_string(),
        artifact_id: id.to_string(),
        revision_base: base,
        hash: content_hash(data),
        op: "upsert".to_string(),
    }
}

fn meta_with(author: &str, changes: Vec<CommitArtifact>, paths: &[(&str, &str)]) -> PushMetadata {
    let mut p = StrMap::new();
    for (id, path) in paths {
        p.insert(id.to_string(), path.to_string());
    }
    PushMetadata {
        commit: Commit {
            id: "c1".to_string(),
            parent: None,
            message: "m".to_string(),
            author: author.to_string(),
            artifacts: changes,
            timestamp: 0,
        },
        artifact_compression: StrMap::new(),
        artifact_paths: p,
        ref_name: None,
    }
}

fn locked_hero() -> AppState {
    let mut s = state_with("hero.png");
    lock_artifact(&mut s, "hero.png", "alice", 1);
    s
}

#[test]
fn push_by_lock_holder_at_latest_is_accepted() {
    let s = locked_hero();
    let meta = meta_with("alice", vec![change("hero.png", 1, b"x")], &[]);
    let files = vec![("hero.png".to_string(), b"x".to_vec())];
    assert_eq!(push_check(&s, &meta, &files), Ok(()));
}

#[test]
fn push_without_lock_is_forbidden() {
    let s = locked_hero();
    let meta = meta_with("bob", vec![change("hero.png", 1, b"x")], &[]);
    let files = vec![("hero.png".to_string(), b"x".to_vec())];
    assert_eq!(push_check(&s, &meta, &files), Err(Status::Forbidden));
    let free = state_with("hero.png");
    let meta2 = meta_with("alice", vec![change("hero.png", 1, b"x")], &[]);
    assert_eq!(push_check(&free, &meta2, &files), Err(Status::Forbidden));
}

#[test]
fn stale_push_is_refused() {
    let mut s = locked_hero();
    add_revision(&mut s, "hero.png", b"two");
    let meta = meta_with("alice", vec![change("hero.png", 1, b"x")], &[]);
    let files = vec![("hero.png".to_string(), b"x".to_vec())];
    assert_eq!(push_check(&s, &meta, &files), Err(Status::Conflict));
    assert_eq!(s.artifacts.get("hero.png").unwrap().latest, 2);
}

#[test]
fn push_with_wrong_hash_is_refused() {
    let s = locked_hero();
    let meta = meta_with("alice", vec![change("hero.png", 1, b"x")], &[]);
    let files = vec![("hero.png".to_string(), b"y".to_vec())];
    assert_eq!(push_check(&s, &meta, &files), Err(Status::BadRequest));
    assert_eq!(payload_check(b"y", false, &content_hash(b"y")), Ok(()));
    assert_eq!(payload_check(b"y", true, &content_hash(b"y")), Err(Status::BadRequest));
}

#[test]
fn push_file_without_change_is_refused() {
    let s = locked_hero();
    let meta = meta_with("alice", vec![], &[]);
    let files = vec![("hero.png".to_string(), b"x".to_vec())];
    assert_eq!(push_check(&s, &meta, &files), Err(Status::BadRequest));
}

#[test]
fn new_artifact_on_taken_path_is_refused() {
    let s = locked_hero();
    assert!(path_in_use(&s, "hero.png"));
    assert!(!path_in_use(&s, "villain.png"));
    let meta = meta_with("alice", vec![change("n1", 0, b"x")], &[("n1", "hero.png")]);
    let files = vec![("n1".to_string(), b"x".to_vec())];
    assert_eq!(push_check(&s, &meta, &files), Err(Status::Conflict));
    let meta2 = meta_with("alice", vec![change("n1", 0, b"x")], &[("n1", "villain.png")]);
    assert_eq!(push_check(&s, &meta2, &files), Ok(()));
}

#[test]
fn two_new_artifacts_on_one_path_are_refused() {
    let s = empty_state();
    let meta = meta_with(
        "alice",
        vec![change("n1", 0, b"x"), change("n2", 0, b"y")],
        &[("n1", "a.png"), ("n2", "a.png")],
    );
    let files = vec![("n1".to_string(), b"x".to_vec()), ("n2".to_string(), b"y".to_vec())];
    assert_eq!(push_check(&s, &meta, &files), Err(Status::Conflict));
}

#[test]
fn duplicate_file_in_push_is_refused() {
    let s = locked_hero();
    let meta = meta_with("alice", vec![change("hero.png", 1, b"x")], &[]);
    let files = vec![("hero.png".to_string(), b"x".to_vec()), ("hero.png".to_string(), b"x".to_vec())];
    assert_eq!(push_check(&s, &meta, &files), Err(Status::BadRequest));
}

#[test]
fn refused_push_reports_first_refused_file() {
    let s = locked_hero();
    let meta = meta_with("alice", vec![change("hero.png", 1, b"x")], &[]);
    let files = vec![("hero.png".to_string(), b"x".to_vec()), ("other".to_string(), b"z".to_vec())];
    assert_eq!(push_check(&s, &meta, &files), Err(Status::BadRequest));
}

#[test]
fn accepted_push_stores_every_file() {
    let mut s = locked_hero();
    let meta = meta_with(
        "alice",
        vec![change("hero.png", 1, b"x"), change("n1", 0, b"new")],
        &[("n1", "art/new.png")],
    );
    let files = vec![("hero.png".to_string(), b"x".to_vec()), ("n1".to_string(), b"new".to_vec())];
    assert_eq!(accept_push(&mut s, &meta, &files), Ok(()));
    let hero = s.artifacts.get("hero.png").unwrap();
    assert_eq!(hero.latest, 2);
    assert_eq!(hero.locked_by, None);
    assert_eq!(hero.revisions[1].hash, content_hash(b"x"));
    let n1 = s.artifacts.get("n1").unwrap();
    assert_eq!(n1.latest, 1);
    assert_eq!(n1.path, "art/new.png");
}

#[test]
fn refused_push_changes_nothing() {
    let mut s = locked_hero();
    let meta = meta_with(
        "alice",
        vec![change("n1", 0, b"new"), change("hero.png", 1, b"x")],
        &[("n1", "art/new.png")],
    );
    let files = vec![("n1".to_string(), b"new".to_vec()), ("hero.png".to_string(), b"wrong".to_vec())];
    assert_eq!(accept_push(&mut s, &meta, &files), Err(Status::BadRequest));
    assert!(s.artifacts.get("n1").is_none());
    let hero = s.artifacts.get("hero.png").unwrap();
    assert_eq!(hero.latest, 1);
    assert_eq!(hero.locked_by.as_deref(), Some("alice"));
}
