use rig::access::{
    bearer_token, can_force_unlock, check_login, hash_new_password, insert_error_status,
    key_delete_status, may_delete_project, new_cli_token, session_claims, user_id_of,
    TOKEN_LIFETIME_SECS,
};
use rig::files::{
    directory_entries, listed_file_paths, listing_entry_of, listing_of, listing_prefix,
    record_lock_holders, sort_listing, text_less, FileEntry,
};
use rig::protocol::{Permission, User};
use rig::server::{create_artifact, AppState, Status};
use rig::table::StrMap;
use rig::text::{
    decimal_text, extension, file_name, has_suffix, hex_text, join_path, parse_u32, remove_char,
    strip_prefix, trim_text,
};

fn user(id: u128, name: &str, email: &str) -> User {
    User { id, name: name.to_string(), email: email.to_string(), password_hash: String::new() }
}

#[test]
fn bearer_header() {
    assert_eq!(bearer_token(Some("Bearer abc")), Some("abc".to_string()));
    assert_eq!(bearer_token(Some("Basic abc")), None);
    assert_eq!(bearer_token(None), None);
}

#[test]
fn force_unlock_rights() {
    let users = vec![user(1, "root", "admin@example.com"), user(2, "ann", "ann@x"), user(3, "bob", "bob@x")];
    let perms = vec![
        Permission { user_id: 2, project_id: 10, access: "admin".to_string() },
        Permission { user_id: 3, project_id: 10, access: "write".to_string() },
    ];
    assert!(can_force_unlock(&users, &perms, "root", None));
    assert!(can_force_unlock(&users, &perms, "ann", Some(10)));
    assert!(!can_force_unlock(&users, &perms, "ann", Some(11)));
    assert!(!can_force_unlock(&users, &perms, "bob", Some(10)));
    assert!(!can_force_unlock(&users, &perms, "nobody", Some(10)));
}

#[test]
fn error_statuses() {
    assert_eq!(insert_error_status("ERROR: duplicate key value violates"), Status::Conflict);
    assert_eq!(insert_error_status("connection reset"), Status::InternalServerError);
    assert_eq!(key_delete_status(0), Status::NotFound);
    assert_eq!(key_delete_status(1), Status::NoContent);
}

#[test]
fn project_deletion_rights() {
    assert!(may_delete_project(Some(5), 5, None));
    assert!(may_delete_project(Some(5), 6, Some("admin")));
    assert!(!may_delete_project(Some(5), 6, Some("user")));
    assert!(!may_delete_project(None, 6, None));
}

#[test]
fn passwords_hash_and_verify() {
    let h = hash_new_password("s3cret").unwrap();
    assert!(h.starts_with("$2b$12$"));
    let mut u = user(1, "ann", "a@x");
    u.password_hash = h;
    assert_eq!(check_login(Some(&u), "s3cret"), Ok(()));
    assert_eq!(check_login(Some(&u), "wrong"), Err(Status::Unauthorized));
    assert_eq!(check_login(None, "x"), Err(Status::Unauthorized));
    u.password_hash = "garbage".to_string();
    assert_eq!(check_login(Some(&u), "x"), Err(Status::InternalServerError));
}

#[test]
fn session_claims_last_a_day() {
    let c = session_claims("u1".to_string(), 1000);
    assert_eq!(c.sub, "u1");
    assert_eq!(c.exp, 1000 + TOKEN_LIFETIME_SECS);
    assert_eq!(TOKEN_LIFETIME_SECS, 86400);
}

#[test]
fn cli_token_shape() {
    let t = new_cli_token();
    assert_eq!(t.len(), 37);
    assert!(t.starts_with("rigp_"));
    assert!(t[5..].chars().all(|c| c.is_ascii_hexdigit() && !c.is_ascii_uppercase()));
    assert_ne!(new_cli_token(), t);
}

#[test]
fn user_ids_parse_as_uuids() {
    assert_eq!(
        user_id_of("a1a2a3a4-b1b2-c1c2-d1d2-d3d4d5d6d7d8"),
        Ok(0xa1a2a3a4b1b2c1c2d1d2d3d4d5d6d7d8u128)
    );
    assert_eq!(user_id_of("not-a-uuid"), Err(Status::BadRequest));
}

#[test]
fn listing_prefixes() {
    assert_eq!(listing_prefix(None), "");
    assert_eq!(listing_prefix(Some("")), "");
    assert_eq!(listing_prefix(Some("art")), "art/");
    assert_eq!(listing_prefix(Some("art/")), "art/");
}

#[test]
fn listing_entries() {
    let (n, e) = listing_entry_of("art/hero.png", "art/").unwrap();
    assert_eq!(n, "hero.png");
    assert!(!e.is_dir);
    assert_eq!(e.path, "art/hero.png");
    let (n2, e2) = listing_entry_of("art/chars/a.png", "art/").unwrap();
    assert_eq!(n2, "chars");
    assert!(e2.is_dir);
    assert_eq!(e2.path, "art/chars");
    assert!(listing_entry_of("snd/a.wav", "art/").is_none());
}

#[test]
fn directory_listing_sorted_dirs_first() {
    let mut s = AppState { project_dir: "/p".to_string(), artifacts: StrMap::new(), git_modules: StrMap::new() };
    for p in ["art/z.png", "art/chars/a.png", "art/b.png", "art/chars/b.png", "snd/x.wav"] {
        create_artifact(&mut s, p, b"x");
    }
    let mut m = directory_entries(&s, "art/");
    assert_eq!(listed_file_paths(&m), vec!["art/z.png".to_string(), "art/b.png".to_string()]);
    record_lock_holders(&mut m, &[("art/b.png".to_string(), Some("ann".to_string()))], "art/");
    let v = listing_of(m);
    let names: Vec<&str> = v.iter().map(|e| e.name.as_str()).collect();
    assert_eq!(names, vec!["chars", "b.png", "z.png"]);
    assert_eq!(v[1].locked_by.as_deref(), Some("ann"));
    assert!(v[2].locked_by.is_none());
}

#[test]
fn sorting_and_order() {
    assert!(text_less("a", "b"));
    assert!(text_less("ab", "abc"));
    assert!(!text_less("b", "a"));
    assert!(!text_less("a", "a"));
    let v = vec![
        FileEntry { name: "b".to_string(), path: "b".to_string(), is_dir: false, locked_by: None },
        FileEntry { name: "a".to_string(), path: "a".to_string(), is_dir: false, locked_by: None },
        FileEntry { name: "z".to_string(), path: "z".to_string(), is_dir: true, locked_by: None },
    ];
    let r = sort_listing(v);
    let names: Vec<&str> = r.iter().map(|e| e.name.as_str()).collect();
    assert_eq!(names, vec!["z", "a", "b"]);
}

#[test]
fn text_helpers() {
    assert_eq!(decimal_text(0), "0");
    assert_eq!(decimal_text(1234567), "1234567");
    assert_eq!(parse_u32("42"), Some(42));
    assert_eq!(parse_u32("+7"), Some(7));
    assert_eq!(parse_u32("4294967295"), Some(u32::MAX));
    assert_eq!(parse_u32("4294967296"), None);
    assert_eq!(parse_u32(""), None);
    assert_eq!(parse_u32("1x"), None);
    assert_eq!(hex_text(&[0x00, 0xab, 0xff]), "00abff");
    assert_eq!(trim_text("\t a b \n"), "a b");
    assert_eq!(remove_char("a-b-c", '-'), "abc");
    assert_eq!(strip_prefix("refs/heads/x", "refs/heads/"), Some("x".to_string()));
    assert_eq!(strip_prefix("x", "refs/"), None);
    assert!(has_suffix("a.png", ".png"));
    assert_eq!(file_name("a/b/c.txt"), Some("c.txt".to_string()));
    assert_eq!(file_name("a/b/"), Some("b".to_string()));
    assert_eq!(file_name("/"), None);
    assert_eq!(extension("a/b.tar.gz"), Some("gz".to_string()));
    assert_eq!(extension("a/.bashrc"), None);
    assert_eq!(join_path("a", "b"), "a/b");
    assert_eq!(join_path("a/", "b"), "a/b");
    assert_eq!(join_path("", "b"), "b");
}

#[test]
fn table_last_binding_wins() {
    let mut m: StrMap<u32> = StrMap::new();
    m.insert("a".to_string(), 1);
    m.insert("b".to_string(), 2);
    m.insert("a".to_string(), 3);
    assert_eq!(m.len(), 2);
    assert_eq!(m.get("a"), Some(&3));
    assert_eq!(m.key_at(0), "a");
    assert_eq!(m.remove("a"), Some(3));
    assert!(!m.contains_key("a"));
    assert_eq!(m.into_values(), vec![2]);
}
