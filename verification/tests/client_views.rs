use rig::credentials::{rig_config_dir, CredentialStore, Credentials};
use rig::history::{blame_lines, blame_target, log_line, pad_right};
use rig::modules::{module_rows, remote_head_hash, updated_module};
use rig::protocol::{Artifact, Commit, CommitArtifact, GitModule, Index, Revision};
use rig::replies::{
    auth_base, lock_reply, login_url, poll_step, server_url_or_default, unlock_reply, PollStep,
};
use rig::repository::{branch_lines, branch_ref, Config, Repository};
use rig::table::StrMap;

fn commit(id: &str, message: &str, changes: Vec<(&str, u32)>) -> Commit {
    Commit {
        id: id.to_string(),
        parent: None,
        message: message.to_string(),
        author: "ann".to_string(),
        artifacts: changes
            .into_iter()
            .map(|(a, r)| CommitArtifact {
                path: format!("{}.png", a),
                artifact_id: a.to_string(),
                revision_base: r,
                hash: "h".to_string(),
                op: "upsert".to_string(),
            })
            .collect(),
        timestamp: 0,
    }
}

#[test]
fn padding_matches_format() {
    assert_eq!(pad_right("ab", 5), format!("{:<5}", "ab"));
    assert_eq!(pad_right("abcdef", 3), "abcdef");
    assert_eq!(pad_right("", 2), "  ");
}

#[test]
fn log_lines() {
    let c = commit("c1", "first", vec![("id1", 2)]);
    assert_eq!(log_line(&c, &None), Some("c1 first - ann".to_string()));
    assert_eq!(
        log_line(&c, &Some("id1".to_string())),
        Some(format!("{:<40} {:<10} {:<30} {:<15}", "c1", 2, "first", "ann"))
    );
    assert_eq!(log_line(&c, &Some("other".to_string())), None);
}

fn artifacts() -> StrMap<Artifact> {
    let mut m = StrMap::new();
    m.insert(
        "id1".to_string(),
        Artifact {
            id: "id1".to_string(),
            path: "hero.png".to_string(),
            latest: 2,
            locked_by: None,
            revisions: vec![Revision::new(1, b"a", false), Revision::new(2, b"b", false)],
            moved_from: None,
        },
    );
    m
}

#[test]
fn blame_resolves_id_or_path() {
    let a = artifacts();
    assert_eq!(blame_target(&a, "id1"), Some("id1".to_string()));
    assert_eq!(blame_target(&a, "hero.png"), Some("id1".to_string()));
    assert_eq!(blame_target(&a, "nope"), None);
}

#[test]
fn blame_names_introducing_commit() {
    let a = artifacts();
    let mut commits = StrMap::new();
    commits.insert("c1".to_string(), commit("c1", "add hero", vec![("id1", 1)]));
    let lines = blame_lines(&a, &commits, "id1");
    assert_eq!(lines.len(), 2);
    let h1 = &a.get("id1").unwrap().revisions[0].hash;
    let h2 = &a.get("id1").unwrap().revisions[1].hash;
    assert_eq!(lines[0], format!("{:<5} {:<40} {:<30}", 1, h1, "add hero"));
    assert_eq!(lines[1], format!("{:<5} {:<40} {:<30}", 2, h2, "Unknown"));
}

#[test]
fn remote_head_is_first_word() {
    assert_eq!(
        remote_head_hash("  9fceb02d0ae598e95dc970b74767f19372d61af8\tHEAD\n"),
        Some("9fceb02d0ae598e95dc970b74767f19372d61af8".to_string())
    );
    assert_eq!(remote_head_hash(" \n "), None);
}

#[test]
fn module_update_and_rows() {
    let mut ix = Index::default();
    ix.git_modules.insert(
        "libs/x".to_string(),
        GitModule { path: "libs/x".to_string(), url: "https://g/x".to_string(), commit: "old".to_string() },
    );
    let m = updated_module(&ix, "libs/x", "new").ok().unwrap();
    assert_eq!(m.commit, "new");
    assert_eq!(m.url, "https://g/x");
    assert_eq!(updated_module(&ix, "libs/y", "new").err(), Some("Gitmodule at libs/y not found".to_string()));
    let rows = module_rows(&ix.git_modules);
    assert_eq!(rows, vec![format!("{:<30} {:<50} {:<40}", "libs/x", "https://g/x", "old")]);
}

#[test]
fn lock_and_unlock_replies() {
    assert_eq!(lock_reply(true, false, "200 OK", Some(true)), Ok(()));
    assert_eq!(lock_reply(true, false, "200 OK", Some(false)), Err("Lock request denied by server".to_string()));
    assert_eq!(lock_reply(true, false, "200 OK", None), Err("Lock request denied by server".to_string()));
    assert_eq!(lock_reply(false, false, "409 Conflict", None), Err("Lock request failed: 409 Conflict".to_string()));
    assert_eq!(
        lock_reply(false, true, "412 Precondition Failed", None),
        Err("Lock denied: the local copy is outdated. Run 'rig pull' first.".to_string())
    );
    assert_eq!(unlock_reply(true, false, "200 OK", None), Ok(()));
    assert_eq!(
        unlock_reply(false, true, "403 Forbidden", Some("bob".to_string())),
        Err("Unlock denied: artifact is locked by bob".to_string())
    );
    assert_eq!(
        unlock_reply(false, true, "403 Forbidden", None),
        Err("Unlock denied: artifact is locked by another user".to_string())
    );
    assert_eq!(
        unlock_reply(false, false, "404 Not Found", None),
        Err("Unlock request failed: 404 Not Found".to_string())
    );
}

#[test]
fn login_flow_steps() {
    assert_eq!(auth_base("http://h:3000//"), "http://h:3000");
    assert_eq!(login_url("s1"), "http://localhost:3002/auth/login?cli_session=s1");
    assert!(matches!(poll_step("success", Some("tok".to_string())), PollStep::Done(t) if t == "tok"));
    assert!(matches!(poll_step("success", None), PollStep::Wait));
    assert!(matches!(poll_step("expired", None), PollStep::Expired));
    assert!(matches!(poll_step("pending", None), PollStep::Wait));
    assert_eq!(server_url_or_default(&None), "http://localhost:3000");
    assert_eq!(server_url_or_default(&Some("http://x".to_string())), "http://x");
}

#[test]
fn token_read_after_write() {
    let store = CredentialStore::new("/home/u");
    assert_eq!(store.file(), "/home/u/.rig/credentials");
    assert_eq!(rig_config_dir("/c"), "/c/.rig");
    let mut creds = Credentials::empty();
    assert_eq!(store.get_token(&creds, "http://h"), None);
    store.set_token(&mut creds, "http://h", "t1");
    store.set_token(&mut creds, "http://other", "t2");
    assert_eq!(store.get_token(&creds, "http://h"), Some("t1".to_string()));
    store.set_token(&mut creds, "http://h", "t3");
    assert_eq!(store.get_token(&creds, "http://h"), Some("t3".to_string()));
    assert_eq!(store.get_token(&creds, "http://other"), Some("t2".to_string()));
}

#[test]
fn repository_open_and_head() {
    assert!(Repository::open("/w", false).is_err());
    let repo = Repository::open("/w", true).ok().unwrap();
    assert_eq!(repo.rig_dir, "/w/.rig");
    assert_eq!(repo.ref_file("refs/heads/main"), "/w/.rig/refs/heads/main");
    assert_eq!(Repository::head_ref("ref: refs/heads/dev\n"), Some("refs/heads/dev".to_string()));
    assert_eq!(Repository::head_ref("abc123"), None);
    assert_eq!(repo.head_commit("ref: refs/heads/main\n", Some("c0ffee\n")), Some("c0ffee".to_string()));
    assert_eq!(repo.head_commit("ref: refs/heads/main\n", None), None);
    assert_eq!(repo.head_commit(" deadbeef ", None), Some("deadbeef".to_string()));
    assert_eq!(Repository::head_line("refs/heads/x"), "ref: refs/heads/x");
    assert_eq!(branch_ref("dev"), "refs/heads/dev");
    let lines = branch_lines(&["main".to_string(), "dev".to_string()], "ref: refs/heads/dev");
    assert_eq!(lines, vec!["  main".to_string(), "* dev".to_string()]);
    let c = Config { project: "p".to_string(), server_url: None, username: None };
    assert_eq!(c.project, "p");
}

#[test]
fn branch_names_sorted() {
    let v = vec!["main".to_string(), "dev".to_string(), "b".to_string(), "dev".to_string(), "a".to_string()];
    assert_eq!(
        rig::repository::sorted_names(v),
        vec!["a".to_string(), "b".to_string(), "dev".to_string(), "dev".to_string(), "main".to_string()]
    );
    assert!(rig::repository::sorted_names(vec![]).is_empty());
}

#[test]
fn head_reads_back_written_ref() {
    let repo = Repository::open("/w", true).ok().unwrap();
    let head_file = format!("{}\n", Repository::head_line("refs/heads/feature"));
    let ref_file = format!("{}\n", "0123abcd");
    assert_eq!(Repository::head_ref(&head_file), Some("refs/heads/feature".to_string()));
    assert_eq!(repo.head_commit(&head_file, Some(&ref_file)), Some("0123abcd".to_string()));
}
