//! Accounts and access: bearer tokens, passwords, force-unlock rights and
//! project deletion rights.
use vstd::prelude::*;
use crate::codec::{
    bcrypt_default_prefix, bcrypt_hash, bcrypt_verdict, bcrypt_verify, fresh_uuid_text,
    is_hex_digit, is_uuid_text, parse_uuid, uuid_value_of,
};
use crate::protocol::{Permission, User};
use crate::server::Status;
use crate::text::{
    concat, contains_text, occurs_in, remove_char, same_text, starts_with, strip_prefix,
    without_char,
};

verus! {

/// The claims of a session token: the user id and the expiry time in
/// seconds since the Unix epoch.
pub struct Claims {
    pub sub: String,
    pub exp: u64,
}

/// A request to create a user.
pub struct CreateUserRequest {
    pub name: String,
    pub email: String,
    pub password: String,
}

/// A request to register oneself.
pub struct RegisterRequest {
    pub name: String,
    pub email: String,
    pub password: String,
}

/// A login request.
pub struct LoginRequest {
    pub email: String,
    pub password: String,
}

/// A request to register an SSH key.
pub struct CreateSshKeyRequest {
    pub title: String,
    pub key_data: String,
}

/// The state of a command-line login session and, once approved, its token.
pub struct SessionStatusResponse {
    pub status: String,
    pub token: Option<String>,
}

/// How long a session token lives, in seconds.
pub const TOKEN_LIFETIME_SECS: u64 = 86400;

/// The e-mail address of the global administrator.
pub open spec fn admin_email() -> Seq<char> {
    "admin@example.com"@
}

/// The access word of a project administrator.
pub open spec fn admin_access() -> Seq<char> {
    "admin"@
}

/// The scheme word of an authorization header.
pub open spec fn bearer_prefix() -> Seq<char> {
    "Bearer "@
}

/// The token an authorization header carries: the text after `Bearer `.
pub open spec fn bearer_of(header: Option<Seq<char>>) -> Option<Seq<char>> {
    match header {
        Some(h) => if starts_with(h, bearer_prefix()) {
            Some(h.skip(bearer_prefix().len() as int))
        } else {
            None
        },
        None => None,
    }
}

/// Index of the first user with the given name, or -1.
pub open spec fn first_named(users: Seq<User>, name: Seq<char>) -> int
    decreases users.len(),
{
    if users.len() == 0 {
        -1
    } else if users[0].name@ == name {
        0
    } else if first_named(users.drop_first(), name) < 0 {
        -1
    } else {
        first_named(users.drop_first(), name) + 1
    }
}

/// Index of the first user with the given id, or -1.
pub open spec fn first_with_id(users: Seq<User>, id: u128) -> int
    decreases users.len(),
{
    if users.len() == 0 {
        -1
    } else if users[0].id == id {
        0
    } else if first_with_id(users.drop_first(), id) < 0 {
        -1
    } else {
        first_with_id(users.drop_first(), id) + 1
    }
}

/// The first user record with id `id` belongs to the global administrator.
pub open spec fn is_global_admin(users: Seq<User>, id: u128) -> bool {
    let j = first_with_id(users, id);
    j >= 0 && users[j].email@ == admin_email()
}

/// Some permission makes user `uid` an administrator of project `pid`.
pub open spec fn is_project_admin(perms: Seq<Permission>, uid: u128, pid: u128) -> bool {
    exists|k: int|
        0 <= k < perms.len() && #[trigger] perms[k].user_id == uid && perms[k].project_id == pid
            && perms[k].access@ == admin_access()
}

/// Whether the user named `name` may break another user's lock in the
/// project with id `pid`: the global administrator, or an administrator of
/// the project.
pub open spec fn force_allowed(
    users: Seq<User>,
    perms: Seq<Permission>,
    name: Seq<char>,
    pid: Option<u128>,
) -> bool {
    let i = first_named(users, name);
    i >= 0 && (is_global_admin(users, users[i].id) || match pid {
        Some(p) => is_project_admin(perms, users[i].id, p),
        None => false,
    })
}

proof fn lemma_first_named(users: Seq<User>, name: Seq<char>)
    ensures
        -1 <= first_named(users, name) < users.len(),
        first_named(users, name) >= 0 ==> users[first_named(users, name)].name@ == name,
        forall|j: int|
            0 <= j < users.len() && (first_named(users, name) < 0 || j < first_named(users, name))
                ==> users[j].name@ != name,
    decreases users.len(),
{
    if users.len() > 0 {
        lemma_first_named(users.drop_first(), name);
        assert forall|j: int|
            0 <= j < users.len() && (first_named(users, name) < 0 || j < first_named(
                users,
                name,
            )) implies users[j].name@ != name by {
            if j > 0 {
                assert(users.drop_first()[j - 1] == users[j]);
            }
        }
    }
}

proof fn lemma_first_with_id(users: Seq<User>, id: u128)
    ensures
        -1 <= first_with_id(users, id) < users.len(),
        first_with_id(users, id) >= 0 ==> users[first_with_id(users, id)].id == id,
        forall|j: int|
            0 <= j < users.len() && (first_with_id(users, id) < 0 || j < first_with_id(users, id))
                ==> users[j].id != id,
    decreases users.len(),
{
    if users.len() > 0 {
        lemma_first_with_id(users.drop_first(), id);
        assert forall|j: int|
            0 <= j < users.len() && (first_with_id(users, id) < 0 || j < first_with_id(
                users,
                id,
            )) implies users[j].id != id by {
            if j > 0 {
                assert(users.drop_first()[j - 1] == users[j]);
            }
        }
    }
}

/// The token carried by an authorization header, if it uses the bearer
/// scheme.
pub fn bearer_token(header: Option<&str>) -> (t: Option<String>)
    ensures
        t.deep_view() == bearer_of(
            match header {
                Some(h) => Some(h@),
                None => None,
            },
        ),
{
    match header {
        None => None,
        Some(h) => strip_prefix(h, "Bearer "),
    }
}

fn user_named(users: &[User], name: &str) -> (r: Option<usize>)
    ensures
        match r {
            Some(i) => i < users@.len() && i == first_named(users@, name@),
            None => first_named(users@, name@) == -1,
        },
{
    proof {
        lemma_first_named(users@, name@);
    }
    let mut i: usize = 0;
    while i < users.len()
        invariant
            i <= users@.len(),
            forall|j: int| 0 <= j < i ==> users@[j].name@ != name@,
        decreases users@.len() - i,
    {
        if same_text(users[i].name.as_str(), name) {
            proof {
                lemma_first_named(users@, name@);
            }
            return Some(i);
        }
        i += 1;
    }
    proof {
        lemma_first_named(users@, name@);
    }
    None
}

fn user_with_id(users: &[User], id: u128) -> (r: Option<usize>)
    ensures
        match r {
            Some(i) => i < users@.len() && i == first_with_id(users@, id),
            None => first_with_id(users@, id) == -1,
        },
{
    proof {
        lemma_first_with_id(users@, id);
    }
    let mut i: usize = 0;
    while i < users.len()
        invariant
            i <= users@.len(),
            forall|j: int| 0 <= j < i ==> users@[j].id != id,
        decreases users@.len() - i,
    {
        if users[i].id == id {
            proof {
                lemma_first_with_id(users@, id);
            }
            return Some(i);
        }
        i += 1;
    }
    proof {
        lemma_first_with_id(users@, id);
    }
    None
}

/// Whether the user named `name` may break another user's lock in the
/// project with id `project_id` (`None` when the project has no record).
pub fn can_force_unlock(
    users: &[User],
    permissions: &[Permission],
    name: &str,
    project_id: Option<u128>,
) -> (b: bool)
    ensures
        b == force_allowed(users@, permissions@, name@, project_id),
{
    let i = match user_named(users, name) {
        None => return false,
        Some(i) => i,
    };
    let uid = users[i].id;
    let global = match user_with_id(users, uid) {
        Some(j) => same_text(users[j].email.as_str(), "admin@example.com"),
        None => false,
    };
    if global {
        return true;
    }
    match project_id {
        None => false,
        Some(pid) => {
            let mut k: usize = 0;
            while k < permissions.len()
                invariant
                    k <= permissions@.len(),
                    i < users@.len(),
                    i == first_named(users@, name@),
                    uid == users@[i as int].id,
                    !is_global_admin(users@, uid),
                    project_id == Some(pid),
                    forall|m: int|
                        0 <= m < k ==> !(#[trigger] permissions@[m].user_id == uid
                            && permissions@[m].project_id == pid && permissions@[m].access@
                            == admin_access()),
                decreases permissions@.len() - k,
            {
                let p = &permissions[k];
                if p.user_id == uid && p.project_id == pid && same_text(p.access.as_str(), "admin") {
                    assert(permissions@[k as int].user_id == uid);
                    return true;
                }
                k += 1;
            }
            false
        },
    }
}

/// The status a failed insert is answered with: a duplicate key is a
/// conflict, anything else a server error.
pub fn insert_error_status(message: &str) -> (s: Status)
    ensures
        s == if occurs_in(message@, "duplicate key"@) {
            Status::Conflict
        } else {
            Status::InternalServerError
        },
{
    if contains_text(message, "duplicate key") {
        Status::Conflict
    } else {
        Status::InternalServerError
    }
}

/// The user a verified token names: its subject read as a UUID, or a bad
/// request when the subject is not one.
pub fn user_id_of(sub: &str) -> (r: Result<u128, Status>)
    ensures
        match uuid_value_of(sub@) {
            Some(v) => r == Ok::<u128, Status>(v),
            None => r == Err::<u128, Status>(Status::BadRequest),
        },
{
    match parse_uuid(sub) {
        Some(v) => Ok(v),
        None => Err(Status::BadRequest),
    }
}

/// The answer to deleting one of a user's SSH keys, from the number of
/// rows the deletion removed: none means the key is not the user's.
pub fn key_delete_status(rows_affected: u64) -> (s: Status)
    ensures
        s == if rows_affected == 0 {
            Status::NotFound
        } else {
            Status::NoContent
        },
{
    if rows_affected == 0 {
        Status::NotFound
    } else {
        Status::NoContent
    }
}

/// Whether a user may delete a project: its owner or a global
/// administrator.
pub fn may_delete_project(owner: Option<u128>, user: u128, role: Option<&str>) -> (b: bool)
    ensures
        b == (owner == Some(user) || (role matches Some(r) && r@ == admin_access())),
{
    let is_owner = match owner {
        Some(o) => o == user,
        None => false,
    };
    let is_admin = match role {
        Some(r) => same_text(r, "admin"),
        None => false,
    };
    is_owner || is_admin
}

/// The bcrypt hash stored for a new password, or a server error.
pub fn hash_new_password(password: &str) -> (r: Result<String, Status>)
    ensures
        match r {
            Ok(h) => starts_with(h@, bcrypt_default_prefix()) && bcrypt_verdict(password@, h@) == Some(true),
            Err(s) => s == Status::InternalServerError,
        },
{
    match bcrypt_hash(password) {
        Ok(h) => Ok(h),
        Err(_) => Err(Status::InternalServerError),
    }
}

/// The answer to a login with `password` for the account found, if any:
/// accepted when the password matches the stored hash.
pub open spec fn login_outcome(user: Option<User>, password: Seq<char>) -> Result<(), Status> {
    match user {
        None => Err(Status::Unauthorized),
        Some(u) => match bcrypt_verdict(password, u.password_hash@) {
            None => Err(Status::InternalServerError),
            Some(true) => Ok(()),
            Some(false) => Err(Status::Unauthorized),
        },
    }
}

/// Checks a login: the account must exist and the password must match its
/// hash.
pub fn check_login(user: Option<&User>, password: &str) -> (r: Result<(), Status>)
    ensures
        r == login_outcome(
            match user {
                Some(u) => Some(*u),
                None => None,
            },
            password@,
        ),
{
    match user {
        None => Err(Status::Unauthorized),
        Some(u) => match bcrypt_verify(password, u.password_hash.as_str()) {
            Err(_) => Err(Status::InternalServerError),
            Ok(true) => Ok(()),
            Ok(false) => Err(Status::Unauthorized),
        },
    }
}

/// The claims of a session token for user `sub` issued at `now`: valid for
/// one day.
pub fn session_claims(sub: String, now: u64) -> (c: Claims)
    requires
        now <= u64::MAX - TOKEN_LIFETIME_SECS,
    ensures
        c.sub == sub,
        c.exp == now + TOKEN_LIFETIME_SECS,
{
    Claims { sub, exp: now + TOKEN_LIFETIME_SECS }
}

/// A fresh command-line token: `rigp_` and the 32 hexadecimal digits of a
/// random UUID.
pub fn new_cli_token() -> (t: String)
    ensures
        t@.len() == 37,
        t@.take(5) == "rigp_"@,
        forall|i: int| 5 <= i < 37 ==> is_hex_digit(#[trigger] t@[i]),
{
    let u = fresh_uuid_text();
    let digits = remove_char(u.as_str(), '-');
    proof {
        lemma_uuid_without_dashes(u@);
    }
    let t = concat("rigp_", digits.as_str());
    proof {
        reveal_strlit("rigp_");
        assert(t@.take(5) =~= "rigp_"@);
        assert forall|i: int| 5 <= i < 37 implies is_hex_digit(#[trigger] t@[i]) by {
            assert(t@[i] == digits@[i - 5]);
        }
    }
    t
}

proof fn lemma_without_dashes_hex(s: Seq<char>)
    ensures
        forall|i: int| 0 <= i < without_char(s, '-').len() ==> {
            let c = #[trigger] without_char(s, '-')[i];
            c != '-' && s.contains(c)
        },
        without_char(s, '-').len() <= s.len(),
    decreases s.len(),
{
    reveal_with_fuel(Seq::filter, 1);
    if s.len() > 0 {
        lemma_without_dashes_hex(s.drop_last());
        let sub = without_char(s.drop_last(), '-');
        assert forall|i: int| 0 <= i < without_char(s, '-').len() implies {
            let c = #[trigger] without_char(s, '-')[i];
            c != '-' && s.contains(c)
        } by {
            let c = without_char(s, '-')[i];
            if i < sub.len() {
                assert(c == sub[i]);
                let k = choose|k: int| 0 <= k < s.drop_last().len() && s.drop_last()[k] == c;
                assert(s[k] == c);
            } else {
                assert(c == s.last());
                assert(s[s.len() - 1] == c);
            }
        }
    }
}

proof fn lemma_count_dashes(s: Seq<char>, n: int)
    requires
        0 <= n <= s.len(),
        is_uuid_text(s),
    ensures
        without_char(s.take(n), '-').len() == n - (if n > 23 {
            4int
        } else if n > 18 {
            3int
        } else if n > 13 {
            2int
        } else if n > 8 {
            1int
        } else {
            0int
        }),
    decreases n,
{
    reveal_with_fuel(Seq::filter, 1);
    if n > 0 {
        lemma_count_dashes(s, n - 1);
        assert(s.take(n).drop_last() =~= s.take(n - 1));
        assert(s.take(n).last() == s[n - 1]);
        let k = n - 1;
        if !(k == 8 || k == 13 || k == 18 || k == 23) {
            assert(is_hex_digit(s[k]));
        } else {
            assert(s[k] == '-');
        }
    }
}

proof fn lemma_uuid_without_dashes(s: Seq<char>)
    requires
        is_uuid_text(s),
    ensures
        without_char(s, '-').len() == 32,
        forall|i: int| 0 <= i < 32 ==> is_hex_digit(#[trigger] without_char(s, '-')[i]),
{
    lemma_count_dashes(s, 36);
    assert(s.take(36) =~= s);
    lemma_without_dashes_hex(s);
    assert forall|i: int| 0 <= i < 32 implies is_hex_digit(#[trigger] without_char(s, '-')[i]) by {
        let c = without_char(s, '-')[i];
        let k = choose|k: int| 0 <= k < s.len() && s[k] == c;
        if !(k == 8 || k == 13 || k == 18 || k == 23) {
            assert(is_hex_digit(s[k]));
        } else {
            assert(s[k] == '-');
        }
    }
}

} // verus!
