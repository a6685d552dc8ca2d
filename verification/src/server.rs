//! The server's artifact store for one project: locks, revisions, pushes.
//!
//! Every request is decided against the in-memory state; the state changes
//! are spec functions over the artifacts map, so that the rules the server
//! enforces (a lock has one holder; a revision needs a lock; a push bumps the
//! revision by one and releases the lock) are stated and proved once.
use vstd::prelude::*;
use vstd::utf8::encode_utf8;
use crate::codec::{
    base64_decode, base64_decoded, content_hash, content_hash_of, gunzip, sha1_digest, sha1_of,
};
use crate::sync::unpacked_of;
use crate::protocol::{
    Artifact, ArtifactView, Commit, CommitArtifact, GitModule, IndexFile, Revision,
    RevisionView,
};
use crate::table::{last_index_of, lemma_last_index_of, same_key_order, StrMap};
use crate::text::{decimal, decimal_text, extension, extension_of, hex_lower, hex_text, owned,
    same_text, concat, join_path, joined};

verus! {

/// The HTTP statuses the server answers with.
#[derive(Clone, Copy, Debug, PartialEq, Eq, Structural)]
pub enum Status {
    Success,
    Created,
    NoContent,
    BadRequest,
    Unauthorized,
    Forbidden,
    NotFound,
    Conflict,
    Gone,
    PreconditionFailed,
    InternalServerError,
}

impl Status {
    /// The numeric HTTP status code.
    pub fn code(&self) -> (c: u16)
        ensures
            c == status_code(*self),
    {
        match self {
            Status::Success => 200,
            Status::Created => 201,
            Status::NoContent => 204,
            Status::BadRequest => 400,
            Status::Unauthorized => 401,
            Status::Forbidden => 403,
            Status::NotFound => 404,
            Status::Conflict => 409,
            Status::Gone => 410,
            Status::PreconditionFailed => 412,
            Status::InternalServerError => 500,
        }
    }
}

/// The numeric HTTP status code of a status.
pub open spec fn status_code(s: Status) -> u16 {
    match s {
        Status::Success => 200,
        Status::Created => 201,
        Status::NoContent => 204,
        Status::BadRequest => 400,
        Status::Unauthorized => 401,
        Status::Forbidden => 403,
        Status::NotFound => 404,
        Status::Conflict => 409,
        Status::Gone => 410,
        Status::PreconditionFailed => 412,
        Status::InternalServerError => 500,
    }
}

/// The loaded state of one project.
pub struct AppState {
    pub project_dir: String,
    pub artifacts: StrMap<Artifact>,
    pub git_modules: StrMap<GitModule>,
}

/// A lock request names the requesting user and the revision of the
/// artifact the requester's working copy holds.
pub struct LockRequest {
    pub user: String,
    pub revision: u32,
}

/// An unlock request; `force` asks to break another user's lock.
pub struct UnlockRequest {
    pub user: String,
    pub force: bool,
}

/// The lock state reported back to a client.
pub struct LockResponse {
    pub locked: bool,
    pub user: Option<String>,
}

/// A request to create an artifact from base64 content.
pub struct CreateArtifactRequest {
    pub path: String,
    pub content_base64: String,
    pub _message: Option<String>,
}

/// The identifier of a created artifact.
pub struct CreateArtifactResponse {
    pub artifact_id: String,
}

/// An artifact in a listing.
pub struct ArtifactShortResponse {
    pub id: String,
    pub path: String,
}

/// An artifact's path and latest revision.
pub struct ArtifactInfoResponse {
    pub id: String,
    pub path: String,
    pub latest_revision: u32,
}

/// One revision number in a listing.
pub struct RevisionShortResponse {
    pub revision: u32,
}

/// A request to add a revision from base64 content.
pub struct CreateRevisionRequest {
    pub content_base64: String,
    pub _message: Option<String>,
}

/// The number of a created revision.
pub struct CreateRevisionResponse {
    pub revision: u32,
}

/// The metadata part of a push: the commit, per-artifact compression flags
/// and paths, and the ref the commit goes to.
pub struct PushMetadata {
    pub commit: Commit,
    pub artifact_compression: StrMap<bool>,
    pub artifact_paths: StrMap<String>,
    pub ref_name: Option<String>,
}

// ---------------------------------------------------------------------
// The model: transitions of the artifacts map
// ---------------------------------------------------------------------

/// Map from artifact id to artifact.
pub type ArtifactMap = Map<Seq<char>, ArtifactView>;

/// `a` with lock holder `h`.
pub open spec fn with_holder(a: ArtifactView, h: Option<Seq<char>>) -> ArtifactView {
    ArtifactView { locked_by: h, ..a }
}

/// The current lock holder of `id`, if the artifact exists and is locked.
pub open spec fn holder(m: ArtifactMap, id: Seq<char>) -> Option<Seq<char>> {
    if m.dom().contains(id) {
        m[id].locked_by
    } else {
        None
    }
}

/// How a lock request is answered.
#[derive(Clone, Copy, Debug, PartialEq, Eq, Structural)]
pub enum LockDecision {
    /// The artifact was free and is now locked by the requester.
    Granted,
    /// The requester already holds the lock.
    AlreadyHeld,
    /// Another user holds the lock.
    Held,
    /// The artifact is free but the requester's copy is older than its
    /// latest revision: it has to pull first.
    Outdated,
    /// There is no such artifact.
    Missing,
}

/// The decision on a lock request by `user`, whose copy holds revision
/// `rev`, for `id`.
pub open spec fn lock_decision(m: ArtifactMap, id: Seq<char>, user: Seq<char>, rev: u32) -> LockDecision {
    if !m.dom().contains(id) {
        LockDecision::Missing
    } else {
        match m[id].locked_by {
            None => if rev < m[id].latest {
                LockDecision::Outdated
            } else {
                LockDecision::Granted
            },
            Some(o) => if o == user {
                LockDecision::AlreadyHeld
            } else {
                LockDecision::Held
            },
        }
    }
}

/// The artifacts after a lock request by `user` (at revision `rev`) for `id`.
pub open spec fn after_lock(m: ArtifactMap, id: Seq<char>, user: Seq<char>, rev: u32) -> ArtifactMap {
    if lock_decision(m, id, user, rev) == LockDecision::Granted {
        m.insert(id, with_holder(m[id], Some(user)))
    } else {
        m
    }
}

/// How an unlock request is answered.
#[derive(Clone, Copy, Debug, PartialEq, Eq, Structural)]
pub enum UnlockDecision {
    /// The lock was released.
    Released,
    /// The artifact was not locked.
    NotLocked,
    /// Another user holds the lock and the requester may not break it.
    Denied,
    /// There is no such artifact.
    Missing,
}

/// The decision on an unlock request. `may_force` says whether the
/// requester may break another user's lock.
pub open spec fn unlock_decision(
    m: ArtifactMap,
    id: Seq<char>,
    user: Seq<char>,
    force: bool,
    may_force: bool,
) -> UnlockDecision {
    if !m.dom().contains(id) {
        UnlockDecision::Missing
    } else {
        match m[id].locked_by {
            None => UnlockDecision::NotLocked,
            Some(o) => if o == user || (force && may_force) {
                UnlockDecision::Released
            } else {
                UnlockDecision::Denied
            },
        }
    }
}

/// The artifacts after an unlock request.
pub open spec fn after_unlock(
    m: ArtifactMap,
    id: Seq<char>,
    user: Seq<char>,
    force: bool,
    may_force: bool,
) -> ArtifactMap {
    if unlock_decision(m, id, user, force, may_force) == UnlockDecision::Released {
        m.insert(id, with_holder(m[id], None))
    } else {
        m
    }
}

/// Whether answering an unlock request needs the requester's admin rights:
/// only when another user holds the lock and the request forces.
pub open spec fn unlock_needs_admin(m: ArtifactMap, id: Seq<char>, user: Seq<char>, force: bool) -> bool {
    &&& m.dom().contains(id)
    &&& m[id].locked_by matches Some(o) && o != user
    &&& force
}

/// The stored revision of a payload.
pub open spec fn revision_of(rev: u32, data: Seq<u8>, compressed: bool) -> RevisionView {
    RevisionView { rev, hash: content_hash_of(data), compressed }
}

/// `a` with one more revision holding `data`.
pub open spec fn appended(a: ArtifactView, data: Seq<u8>, compressed: bool) -> ArtifactView {
    ArtifactView {
        latest: (a.latest + 1) as u32,
        revisions: a.revisions.push(revision_of((a.latest + 1) as u32, data, compressed)),
        ..a
    }
}

/// A new artifact whose first revision holds `data`.
pub open spec fn fresh_artifact(id: Seq<char>, path: Seq<char>, data: Seq<u8>, compressed: bool) -> ArtifactView {
    ArtifactView {
        id,
        path,
        latest: 1,
        locked_by: None,
        revisions: seq![revision_of(1, data, compressed)],
        moved_from: None,
    }
}

/// The decision on a new-revision request: the number of the new revision,
/// or the refusal. A revision needs an existing artifact that someone has
/// locked.
pub open spec fn revision_decision(m: ArtifactMap, id: Seq<char>) -> Result<u32, Status> {
    if !m.dom().contains(id) {
        Err(Status::NotFound)
    } else if m[id].locked_by is None {
        Err(Status::Conflict)
    } else {
        Ok((m[id].latest + 1) as u32)
    }
}

/// The artifacts after a new revision of `id` holding `data`.
pub open spec fn after_revision(m: ArtifactMap, id: Seq<char>, data: Seq<u8>) -> ArtifactMap {
    m.insert(id, appended(m[id], data, false))
}

/// Whether a pushed artifact's payload is stored compressed.
pub open spec fn pushed_compressed(compression: Map<Seq<char>, bool>, id: Seq<char>) -> bool {
    compression.dom().contains(id) && compression[id]
}

/// The path a newly pushed artifact gets: the one the push names, else its id.
pub open spec fn pushed_path(paths: Map<Seq<char>, Seq<char>>, id: Seq<char>) -> Seq<char> {
    if paths.dom().contains(id) {
        paths[id]
    } else {
        id
    }
}

/// The revision number a pushed payload for `id` is stored under.
pub open spec fn push_revision(m: ArtifactMap, id: Seq<char>) -> u32 {
    if m.dom().contains(id) {
        (m[id].latest + 1) as u32
    } else {
        1
    }
}

/// The artifacts after storing a pushed payload for `id`: an existing
/// artifact gets a new revision and its lock is released; a new one starts
/// at revision 1.
pub open spec fn after_push_upload(
    m: ArtifactMap,
    id: Seq<char>,
    data: Seq<u8>,
    compressed: bool,
    path: Seq<char>,
) -> ArtifactMap {
    if m.dom().contains(id) {
        m.insert(id, with_holder(appended(m[id], data, compressed), None))
    } else {
        m.insert(id, fresh_artifact(id, path, data, compressed))
    }
}

/// The payload a create request carries: its decoded base64, or nothing
/// when the text is not valid base64.
pub open spec fn upload_payload(text: Seq<char>) -> Seq<u8> {
    match base64_decoded(text) {
        Some(b) => b,
        None => Seq::empty(),
    }
}

/// The name of the file that stores revision `rev` of artifact `id`:
/// `rev<N>` followed by the id's extension, if any.
pub open spec fn rev_filename(id: Seq<char>, rev: u32) -> Seq<char> {
    let base = seq!['r', 'e', 'v'] + decimal(rev as nat);
    match extension_of(id) {
        Some(e) => base + seq!['.'] + e,
        None => base,
    }
}

/// The identifier of a commit: lower-case hexadecimal SHA-1 over the parent
/// id (empty for none), message, author and the JSON of its artifacts.
pub open spec fn commit_id_of(
    parent: Option<Seq<char>>,
    message: Seq<char>,
    author: Seq<char>,
    artifacts_json: Seq<u8>,
) -> Seq<char> {
    let p = match parent {
        Some(p) => p,
        None => Seq::empty(),
    };
    hex_lower(
        sha1_of(encode_utf8(p) + encode_utf8(message) + encode_utf8(author) + artifacts_json),
    )
}

// ---------------------------------------------------------------------
// Helpers
// ---------------------------------------------------------------------

proof fn lemma_value_at_last<V: View>(m: StrMap<V>, i: int)
    requires
        0 <= i < m.pairs().len(),
        i == crate::table::last_index_of(m.pairs(), m.pairs()[i].0),
    ensures
        m.vmap().dom().contains(m.pairs()[i].0),
        m.vmap()[m.pairs()[i].0] == m.pairs()[i].1@,
{
    crate::table::lemma_last_index_of(m.pairs(), m.pairs()[i].0);
}

/// The file name of revision `rev` of artifact `id`.
pub fn get_rev_filename(id: &str, rev: u32) -> (name: String)
    ensures
        name@ == rev_filename(id@, rev),
{
    let digits = decimal_text(rev as u64);
    let base = concat("rev", digits.as_str());
    proof {
        reveal_strlit("rev");
        assert("rev"@ =~= seq!['r', 'e', 'v']);
    }
    match extension(id) {
        Some(e) => {
            let dotted = concat(base.as_str(), ".");
            proof {
                reveal_strlit(".");
            }
            concat(dotted.as_str(), e.as_str())
        },
        None => base,
    }
}

/// The directory holding the stored revisions of artifact `id`.
pub fn artifact_dir(project_dir: &str, id: &str) -> (dir: String)
    ensures
        dir@ == joined(joined(project_dir@, "artifacts"@), id@),
{
    let store = join_path(project_dir, "artifacts");
    join_path(store.as_str(), id)
}

/// The payload of a create or revision request.
pub fn upload_bytes(content_base64: &str) -> (data: Vec<u8>)
    ensures
        data@ == upload_payload(content_base64@),
{
    match base64_decode(content_base64) {
        Some(v) => v,
        None => Vec::new(),
    }
}

// ---------------------------------------------------------------------
// Locks
// ---------------------------------------------------------------------

/// Decides a lock request by `user`, whose copy holds revision `rev`, for
/// artifact `id` and applies it. Returns the decision and the response the
/// client gets.
pub fn lock_artifact(state: &mut AppState, id: &str, user: &str, rev: u32) -> (r: (LockDecision, LockResponse))
    ensures
        r.0 == lock_decision(old(state).artifacts.vmap(), id@, user@, rev),
        final(state).artifacts.vmap() == after_lock(old(state).artifacts.vmap(), id@, user@, rev),
        same_key_order(old(state).artifacts.pairs(), final(state).artifacts.pairs()),
        final(state).project_dir == old(state).project_dir,
        final(state).git_modules == old(state).git_modules,
        r.1.locked == (r.0 == LockDecision::Granted || r.0 == LockDecision::AlreadyHeld),
        r.1.user.deep_view() == match r.0 {
            LockDecision::Granted | LockDecision::AlreadyHeld => Some(user@),
            LockDecision::Held => holder(old(state).artifacts.vmap(), id@),
            LockDecision::Outdated | LockDecision::Missing => None,
        },
{
    match state.artifacts.find(id) {
        None => (LockDecision::Missing, LockResponse { locked: false, user: None }),
        Some(i) => {
            proof {
                lemma_value_at_last(state.artifacts, i as int);
            }
            let a = state.artifacts.value_at(i);
            match &a.locked_by {
                None => {
                    if rev < a.latest {
                        return (LockDecision::Outdated, LockResponse { locked: false, user: None });
                    }
                    let mut b = a.clone();
                    b.locked_by = Some(owned(user));
                    let ghost bv = b@;
                    state.artifacts.replace_at(i, b);
                    proof {
                        assert(bv == with_holder(old(state).artifacts.vmap()[id@], Some(user@)));
                        assert(state.artifacts.vmap() =~= old(state).artifacts.vmap().insert(id@, bv));
                    }
                    (LockDecision::Granted, LockResponse { locked: true, user: Some(owned(user)) })
                },
                Some(o) => {
                    if same_text(o.as_str(), user) {
                        (LockDecision::AlreadyHeld, LockResponse { locked: true, user: Some(owned(user)) })
                    } else {
                        let owner = o.clone();
                        (LockDecision::Held, LockResponse { locked: false, user: Some(owner) })
                    }
                },
            }
        },
    }
}

/// The status a lock request is answered with.
pub fn lock_status(d: LockDecision) -> (s: Status)
    ensures
        s == match d {
            LockDecision::Granted | LockDecision::AlreadyHeld => Status::Success,
            LockDecision::Held => Status::Conflict,
            LockDecision::Outdated => Status::PreconditionFailed,
            LockDecision::Missing => Status::NotFound,
        },
{
    match d {
        LockDecision::Granted | LockDecision::AlreadyHeld => Status::Success,
        LockDecision::Held => Status::Conflict,
        LockDecision::Outdated => Status::PreconditionFailed,
        LockDecision::Missing => Status::NotFound,
    }
}

/// Whether an unlock request needs the requester's admin rights checked.
pub fn unlock_needs_admin_check(state: &AppState, id: &str, user: &str, force: bool) -> (b: bool)
    ensures
        b == unlock_needs_admin(state.artifacts.vmap(), id@, user@, force),
{
    match state.artifacts.find(id) {
        None => false,
        Some(i) => {
            proof {
                lemma_value_at_last(state.artifacts, i as int);
            }
            match &state.artifacts.value_at(i).locked_by {
                None => false,
                Some(o) => force && !same_text(o.as_str(), user),
            }
        },
    }
}

/// Decides an unlock request and applies it. `may_force` says whether the
/// requester may break another user's lock (see `access::can_force_unlock`).
pub fn unlock_artifact(
    state: &mut AppState,
    id: &str,
    user: &str,
    force: bool,
    may_force: bool,
) -> (r: (UnlockDecision, LockResponse))
    ensures
        r.0 == unlock_decision(old(state).artifacts.vmap(), id@, user@, force, may_force),
        final(state).artifacts.vmap() == after_unlock(
            old(state).artifacts.vmap(),
            id@,
            user@,
            force,
            may_force,
        ),
        same_key_order(old(state).artifacts.pairs(), final(state).artifacts.pairs()),
        final(state).project_dir == old(state).project_dir,
        final(state).git_modules == old(state).git_modules,
        r.1.locked == (r.0 == UnlockDecision::Denied),
        r.1.user.deep_view() == if r.0 == UnlockDecision::Denied {
            holder(old(state).artifacts.vmap(), id@)
        } else {
            None
        },
{
    match state.artifacts.find(id) {
        None => (UnlockDecision::Missing, LockResponse { locked: false, user: None }),
        Some(i) => {
            proof {
                lemma_value_at_last(state.artifacts, i as int);
            }
            let a = state.artifacts.value_at(i);
            match &a.locked_by {
                None => (UnlockDecision::NotLocked, LockResponse { locked: false, user: None }),
                Some(o) => {
                    if same_text(o.as_str(), user) || (force && may_force) {
                        let mut b = a.clone();
                        b.locked_by = None;
                        let ghost bv = b@;
                        state.artifacts.replace_at(i, b);
                        proof {
                            assert(bv == with_holder(old(state).artifacts.vmap()[id@], None));
                            assert(state.artifacts.vmap() =~= old(state).artifacts.vmap().insert(
                                id@,
                                bv,
                            ));
                        }
                        (UnlockDecision::Released, LockResponse { locked: false, user: None })
                    } else {
                        let owner = o.clone();
                        (UnlockDecision::Denied, LockResponse { locked: true, user: Some(owner) })
                    }
                },
            }
        },
    }
}

/// The status an unlock request is answered with.
pub fn unlock_status(d: UnlockDecision) -> (s: Status)
    ensures
        s == match d {
            UnlockDecision::Released | UnlockDecision::NotLocked => Status::Success,
            UnlockDecision::Denied => Status::Forbidden,
            UnlockDecision::Missing => Status::NotFound,
        },
{
    match d {
        UnlockDecision::Released | UnlockDecision::NotLocked => Status::Success,
        UnlockDecision::Denied => Status::Forbidden,
        UnlockDecision::Missing => Status::NotFound,
    }
}

/// The lock state of an artifact as reported to clients; an unknown
/// artifact reads as unlocked.
pub fn lock_state(state: &AppState, id: &str) -> (r: LockResponse)
    ensures
        r.locked == (holder(state.artifacts.vmap(), id@) is Some),
        r.user.deep_view() == holder(state.artifacts.vmap(), id@),
{
    match state.artifacts.find(id) {
        None => LockResponse { locked: false, user: None },
        Some(i) => {
            proof {
                lemma_value_at_last(state.artifacts, i as int);
            }
            let a = state.artifacts.value_at(i);
            LockResponse { locked: a.locked_by.is_some(), user: a.locked_by.clone() }
        },
    }
}

// ---------------------------------------------------------------------
// Artifacts and revisions
// ---------------------------------------------------------------------

/// Checks a create request: the path must not be taken. On success gives
/// the file name of revision 1 and the decoded payload.
pub fn plan_create_artifact(state: &AppState, req: &CreateArtifactRequest) -> (r: Result<
    (String, Vec<u8>),
    Status,
>)
    ensures
        match r {
            Ok((name, data)) => !state.artifacts@.dom().contains(req.path@) && name@ == rev_filename(
                req.path@,
                1,
            ) && data@ == upload_payload(req.content_base64@),
            Err(s) => state.artifacts@.dom().contains(req.path@) && s == Status::Conflict,
        },
{
    if state.artifacts.contains_key(req.path.as_str()) {
        return Err(Status::Conflict);
    }
    let name = get_rev_filename(req.path.as_str(), 1);
    let data = upload_bytes(req.content_base64.as_str());
    Ok((name, data))
}

/// Records a created artifact whose first revision holds `data`. Its id is
/// its path.
pub fn create_artifact(state: &mut AppState, path: &str, data: &[u8])
    ensures
        final(state).artifacts.vmap() == old(state).artifacts.vmap().insert(
            path@,
            fresh_artifact(path@, path@, data@, false),
        ),
        final(state).project_dir == old(state).project_dir,
        final(state).git_modules == old(state).git_modules,
{
    let mut revisions = Vec::new();
    revisions.push(Revision::new(1, data, false));
    let a = Artifact {
        id: owned(path),
        path: owned(path),
        latest: 1,
        locked_by: None,
        revisions,
        moved_from: None,
    };
    assert(a@.revisions =~= seq![revision_of(1, data@, false)]);
    let ghost av = a@;
    state.artifacts.insert(owned(path), a);
    assert(state.artifacts.vmap() =~= old(state).artifacts.vmap().insert(path@, av));
}

/// Checks a new-revision request. On success gives the new revision number
/// and the file name it is stored under.
pub fn plan_revision(state: &AppState, id: &str) -> (r: Result<(u32, String), Status>)
    requires
        state.artifacts.vmap().dom().contains(id@) ==> state.artifacts.vmap()[id@].latest < u32::MAX,
    ensures
        match r {
            Ok((rev, name)) => revision_decision(state.artifacts.vmap(), id@) == Ok::<u32, Status>(rev)
                && name@ == rev_filename(id@, rev),
            Err(s) => revision_decision(state.artifacts.vmap(), id@) == Err::<u32, Status>(s),
        },
{
    match state.artifacts.find(id) {
        None => Err(Status::NotFound),
        Some(i) => {
            proof {
                lemma_value_at_last(state.artifacts, i as int);
            }
            let a = state.artifacts.value_at(i);
            if a.locked_by.is_none() {
                return Err(Status::Conflict);
            }
            let rev = a.latest + 1;
            Ok((rev, get_rev_filename(id, rev)))
        },
    }
}

/// Appends a revision holding `data` to a locked artifact.
pub fn add_revision(state: &mut AppState, id: &str, data: &[u8]) -> (rev: u32)
    requires
        revision_decision(old(state).artifacts.vmap(), id@) is Ok,
        old(state).artifacts.vmap()[id@].latest < u32::MAX,
    ensures
        revision_decision(old(state).artifacts.vmap(), id@) == Ok::<u32, Status>(rev),
        final(state).artifacts.vmap() == after_revision(old(state).artifacts.vmap(), id@, data@),
        same_key_order(old(state).artifacts.pairs(), final(state).artifacts.pairs()),
        final(state).project_dir == old(state).project_dir,
        final(state).git_modules == old(state).git_modules,
{
    let i = state.artifacts.find(id).unwrap();
    proof {
        lemma_value_at_last(state.artifacts, i as int);
    }
    let mut b = state.artifacts.value_at(i).clone();
    let ghost prev = b@;
    let ghost prev_revs = b.revisions@;
    let rev = b.latest + 1;
    b.latest = rev;
    b.revisions.push(Revision::new(rev, data, false));
    assert(b.revisions@.map_values(|r: Revision| r@) =~= prev_revs.map_values(|r: Revision| r@).push(
        revision_of(rev, data@, false),
    ));
    let ghost bv = b@;
    assert(bv =~= appended(old(state).artifacts.vmap()[id@], data@, false));
    state.artifacts.replace_at(i, b);
    assert(state.artifacts.vmap() =~= old(state).artifacts.vmap().insert(id@, bv));
    rev
}

/// The artifacts of a project, in table order.
pub fn artifact_list(state: &AppState) -> (r: Vec<ArtifactShortResponse>)
    ensures
        r@.len() == state.artifacts.pairs().len(),
        forall|i: int|
            0 <= i < r@.len() ==> #[trigger] r@[i].id@ == state.artifacts.pairs()[i].0 && r@[i].path@
                == state.artifacts.pairs()[i].1.path@,
{
    let mut r: Vec<ArtifactShortResponse> = Vec::new();
    let mut i: usize = 0;
    while i < state.artifacts.len()
        invariant
            i <= state.artifacts.pairs().len(),
            r@.len() == i,
            forall|j: int|
                0 <= j < i ==> #[trigger] r@[j].id@ == state.artifacts.pairs()[j].0 && r@[j].path@
                    == state.artifacts.pairs()[j].1.path@,
        decreases state.artifacts.pairs().len() - i,
    {
        let id = state.artifacts.key_at(i).clone();
        let path = state.artifacts.value_at(i).path.clone();
        r.push(ArtifactShortResponse { id, path });
        i += 1;
    }
    r
}

/// An artifact's path and latest revision; an unknown artifact reads as an
/// empty record with revision 0.
pub fn artifact_info(state: &AppState, id: &str) -> (r: ArtifactInfoResponse)
    ensures
        state.artifacts.vmap().dom().contains(id@) ==> r.id@ == id@ && r.path@ == state.artifacts.vmap()[id@].path
            && r.latest_revision == state.artifacts.vmap()[id@].latest,
        !state.artifacts.vmap().dom().contains(id@) ==> r.id@.len() == 0 && r.path@.len() == 0
            && r.latest_revision == 0,
{
    match state.artifacts.find(id) {
        Some(i) => {
            proof {
                lemma_value_at_last(state.artifacts, i as int);
            }
            let a = state.artifacts.value_at(i);
            ArtifactInfoResponse { id: owned(id), path: a.path.clone(), latest_revision: a.latest }
        },
        None => ArtifactInfoResponse { id: String::new(), path: String::new(), latest_revision: 0 },
    }
}

/// The revision numbers of an artifact, oldest first; none for an unknown one.
pub fn revision_list(state: &AppState, id: &str) -> (r: Vec<RevisionShortResponse>)
    ensures
        state.artifacts.vmap().dom().contains(id@) ==> r@.len() == state.artifacts.vmap()[id@].revisions.len()
            && forall|j: int|
            0 <= j < r@.len() ==> #[trigger] r@[j].revision == state.artifacts.vmap()[id@].revisions[j].rev,
        !state.artifacts.vmap().dom().contains(id@) ==> r@.len() == 0,
{
    let mut r: Vec<RevisionShortResponse> = Vec::new();
    match state.artifacts.find(id) {
        None => r,
        Some(i) => {
            proof {
                lemma_value_at_last(state.artifacts, i as int);
            }
            let revs = &state.artifacts.value_at(i).revisions;
            let mut j: usize = 0;
            while j < revs.len()
                invariant
                    j <= revs@.len(),
                    r@.len() == j,
                    forall|k: int| 0 <= k < j ==> #[trigger] r@[k].revision == revs@[k].rev,
                decreases revs@.len() - j,
            {
                r.push(RevisionShortResponse { revision: revs[j].rev });
                j += 1;
            }
            r
        },
    }
}

/// Records a git module under `path`.
pub fn set_git_module(state: &mut AppState, path: String, module: GitModule)
    ensures
        final(state).git_modules@ == old(state).git_modules@.insert(path@, module),
        final(state).artifacts == old(state).artifacts,
        final(state).project_dir == old(state).project_dir,
{
    state.git_modules.insert(path, module);
}

// ---------------------------------------------------------------------
// Pushes
// ---------------------------------------------------------------------

/// The revision number a pushed payload for `id` is stored under.
pub fn push_upload_revision(state: &AppState, id: &str) -> (rev: u32)
    requires
        state.artifacts.vmap().dom().contains(id@) ==> state.artifacts.vmap()[id@].latest < u32::MAX,
    ensures
        rev == push_revision(state.artifacts.vmap(), id@),
{
    match state.artifacts.find(id) {
        None => 1,
        Some(i) => {
            proof {
                lemma_value_at_last(state.artifacts, i as int);
            }
            state.artifacts.value_at(i).latest + 1
        },
    }
}

/// Records a stored push payload for `id`: a new revision whose lock is
/// released for a known artifact, a new artifact otherwise.
pub fn apply_push_upload(state: &mut AppState, meta: &PushMetadata, id: &str, data: &[u8])
    requires
        old(state).artifacts.vmap().dom().contains(id@) ==> old(state).artifacts.vmap()[id@].latest
            < u32::MAX,
    ensures
        final(state).artifacts.vmap() == after_push_upload(
            old(state).artifacts.vmap(),
            id@,
            data@,
            pushed_compressed(meta.artifact_compression@, id@),
            pushed_path(meta.artifact_paths.vmap(), id@),
        ),
        final(state).project_dir == old(state).project_dir,
        final(state).git_modules == old(state).git_modules,
{
    let compressed = match meta.artifact_compression.get(id) {
        Some(c) => *c,
        None => false,
    };
    match state.artifacts.find(id) {
        Some(i) => {
            proof {
                lemma_value_at_last(state.artifacts, i as int);
            }
            let mut b = state.artifacts.value_at(i).clone();
            let ghost prev_revs = b.revisions@;
            let rev = b.latest + 1;
            b.latest = rev;
            b.revisions.push(Revision::new(rev, data, compressed));
            assert(b.revisions@.map_values(|r: Revision| r@) =~= prev_revs.map_values(
                |r: Revision| r@,
            ).push(revision_of(rev, data@, compressed)));
            b.locked_by = None;
            let ghost bv = b@;
            assert(bv =~= with_holder(
                appended(old(state).artifacts.vmap()[id@], data@, compressed),
                None,
            ));
            state.artifacts.replace_at(i, b);
            assert(state.artifacts.vmap() =~= old(state).artifacts.vmap().insert(id@, bv));
        },
        None => {
            let path = match meta.artifact_paths.get(id) {
                Some(p) => p.clone(),
                None => owned(id),
            };
            let mut revisions = Vec::new();
            revisions.push(Revision::new(1, data, compressed));
            let a = Artifact {
                id: owned(id),
                path,
                latest: 1,
                locked_by: None,
                revisions,
                moved_from: None,
            };
            let ghost av = a@;
            assert(av.revisions =~= seq![revision_of(1, data@, compressed)]);
            assert(av == fresh_artifact(
                id@,
                pushed_path(meta.artifact_paths.vmap(), id@),
                data@,
                compressed,
            ));
            state.artifacts.insert(owned(id), a);
            assert(state.artifacts.vmap() =~= old(state).artifacts.vmap().insert(id@, av));
        },
    }
}

/// The first change of a commit that concerns artifact `id`.
pub open spec fn change_for(changes: Seq<CommitArtifact>, id: Seq<char>) -> Option<CommitArtifact>
    decreases changes.len(),
{
    if changes.len() == 0 {
        None
    } else if changes[0].artifact_id@ == id {
        Some(changes[0])
    } else {
        change_for(changes.drop_first(), id)
    }
}

/// Whether some stored artifact has path `path`.
pub open spec fn path_taken(m: ArtifactMap, path: Seq<char>) -> bool {
    exists|k: Seq<char>| #[trigger] m.dom().contains(k) && m[k].path == path
}

/// The files of a push, each artifact id and payload taken by its view.
pub open spec fn pushed_files(files: Seq<(String, Vec<u8>)>) -> Seq<(Seq<char>, Seq<u8>)> {
    files.map_values(|f: (String, Vec<u8>)| (f.0@, f.1@))
}

/// The verdict on an uploaded payload: it unpacks, and what it unpacks to
/// has the content hash that the commit records.
pub open spec fn payload_verdict(payload: Seq<u8>, compressed: bool, hash: Seq<char>) -> Result<(), Status> {
    match unpacked_of(payload, compressed) {
        Some(d) => if content_hash_of(d) == hash {
            Ok(())
        } else {
            Err(Status::BadRequest)
        },
        None => Err(Status::BadRequest),
    }
}

/// Whether one of the `earlier` files of a push names artifact `id`.
pub open spec fn named_earlier(earlier: Seq<(Seq<char>, Seq<u8>)>, id: Seq<char>) -> bool {
    exists|j: int| #![trigger earlier[j]] 0 <= j < earlier.len() && earlier[j].0 == id
}

/// Whether one of the `earlier` files of a push creates an artifact at `path`.
pub open spec fn claimed_earlier(
    m: ArtifactMap,
    paths: Map<Seq<char>, Seq<char>>,
    earlier: Seq<(Seq<char>, Seq<u8>)>,
    path: Seq<char>,
) -> bool {
    exists|j: int|
        #![trigger earlier[j]]
        0 <= j < earlier.len() && !m.dom().contains(earlier[j].0) && pushed_path(paths, earlier[j].0) == path
}

/// The verdict on one uploaded file `(id, payload)` of a push, after the
/// `earlier` files of the same push. It is refused when an earlier file
/// names the same artifact or the commit has no change for it (400); for a
/// known artifact, when the commit's author does not hold its lock (403) or
/// the change is not based on its latest revision (409); for a new one,
/// when its path is held by an artifact or claimed by an earlier file
/// (409); and when the payload does not unpack to content with the
/// change's hash (400).
pub open spec fn upload_verdict(
    m: ArtifactMap,
    meta: PushMetadata,
    earlier: Seq<(Seq<char>, Seq<u8>)>,
    id: Seq<char>,
    payload: Seq<u8>,
) -> Result<(), Status> {
    if named_earlier(earlier, id) {
        Err(Status::BadRequest)
    } else {
        match change_for(meta.commit.artifacts@, id) {
            None => Err(Status::BadRequest),
            Some(c) => {
                let compressed = pushed_compressed(meta.artifact_compression@, id);
                if m.dom().contains(id) {
                    if m[id].locked_by != Some(meta.commit.author@) {
                        Err(Status::Forbidden)
                    } else if c.revision_base != m[id].latest {
                        Err(Status::Conflict)
                    } else {
                        payload_verdict(payload, compressed, c.hash@)
                    }
                } else {
                    let path = pushed_path(meta.artifact_paths.vmap(), id);
                    if path_taken(m, path) || claimed_earlier(m, meta.artifact_paths.vmap(), earlier, path) {
                        Err(Status::Conflict)
                    } else {
                        payload_verdict(payload, compressed, c.hash@)
                    }
                }
            },
        }
    }
}

/// The verdict on a whole push: the refusal of its first refused file, or
/// acceptance when every file passes.
pub open spec fn push_verdict(m: ArtifactMap, meta: PushMetadata, files: Seq<(Seq<char>, Seq<u8>)>) -> Result<
    (),
    Status,
>
    decreases files.len(),
{
    if files.len() == 0 {
        Ok(())
    } else {
        match push_verdict(m, meta, files.drop_last()) {
            Err(s) => Err(s),
            Ok(()) => upload_verdict(m, meta, files.drop_last(), files.last().0, files.last().1),
        }
    }
}

/// A refusal of a first part of the files is the refusal of the push.
proof fn lemma_refused_prefix(m: ArtifactMap, meta: PushMetadata, f: Seq<(Seq<char>, Seq<u8>)>, k: int)
    requires
        0 <= k <= f.len(),
        push_verdict(m, meta, f.take(k)) is Err,
    ensures
        push_verdict(m, meta, f) == push_verdict(m, meta, f.take(k)),
    decreases f.len(),
{
    if k == f.len() {
        assert(f.take(k) =~= f);
    } else {
        assert(f.drop_last().take(k) =~= f.take(k));
        lemma_refused_prefix(m, meta, f.drop_last(), k);
    }
}

/// An accepted push accepts each of its files after the ones before it.
pub proof fn lemma_accepted_files(m: ArtifactMap, meta: PushMetadata, f: Seq<(Seq<char>, Seq<u8>)>)
    requires
        push_verdict(m, meta, f) is Ok,
    ensures
        forall|i: int|
            0 <= i < f.len() ==> #[trigger] upload_verdict(m, meta, f.take(i), f[i].0, f[i].1) is Ok,
    decreases f.len(),
{
    if f.len() > 0 {
        let g = f.drop_last();
        lemma_accepted_files(m, meta, g);
        assert forall|i: int| 0 <= i < f.len() implies #[trigger] upload_verdict(
            m,
            meta,
            f.take(i),
            f[i].0,
            f[i].1,
        ) is Ok by {
            if i < f.len() - 1 {
                assert(g.take(i) =~= f.take(i));
                assert(g[i] == f[i]);
                assert(upload_verdict(m, meta, g.take(i), g[i].0, g[i].1) is Ok);
            } else {
                assert(f.take(i) =~= g);
            }
        }
    }
}

/// Position of the first change of `changes` that concerns artifact `id`.
pub fn find_change(changes: &Vec<CommitArtifact>, id: &str) -> (r: Option<usize>)
    ensures
        match r {
            Some(i) => i < changes@.len() && change_for(changes@, id@) == Some(changes@[i as int]),
            None => change_for(changes@, id@) is None,
        },
{
    let ghost n = changes@.len() as int;
    assert(changes@.subrange(0, n) =~= changes@);
    let mut i: usize = 0;
    while i < changes.len()
        invariant
            i <= changes@.len(),
            n == changes@.len(),
            change_for(changes@, id@) == change_for(changes@.subrange(i as int, n), id@),
        decreases changes@.len() - i,
    {
        let ghost rest = changes@.subrange(i as int, n);
        assert(rest[0] == changes@[i as int]);
        assert(rest.drop_first() =~= changes@.subrange(i + 1, n));
        if same_text(changes[i].artifact_id.as_str(), id) {
            return Some(i);
        }
        i += 1;
    }
    assert(changes@.subrange(n, n).len() == 0);
    None
}

/// Whether some stored artifact has path `path`.
pub fn path_in_use(state: &AppState, path: &str) -> (b: bool)
    ensures
        b == path_taken(state.artifacts.vmap(), path@),
{
    let ghost pairs = state.artifacts.pairs();
    let mut i: usize = 0;
    while i < state.artifacts.len()
        invariant
            i <= pairs.len(),
            pairs == state.artifacts.pairs(),
            forall|j: int|
                0 <= j < i && j == last_index_of(pairs, pairs[j].0) ==> #[trigger] pairs[j].1.path@
                    != path@,
        decreases pairs.len() - i,
    {
        let k = state.artifacts.key_at(i);
        match state.artifacts.find(k.as_str()) {
            Some(f) => {
                if f == i && same_text(state.artifacts.value_at(i).path.as_str(), path) {
                    proof {
                        lemma_value_at_last(state.artifacts, i as int);
                        let w = pairs[i as int].0;
                        assert(state.artifacts.vmap().dom().contains(w) && state.artifacts.vmap()[w].path
                            == path@);
                    }
                    return true;
                }
            },
            None => {},
        }
        i += 1;
    }
    proof {
        assert forall|k: Seq<char>| #[trigger] state.artifacts.vmap().dom().contains(k) implies state.artifacts.vmap()[k].path
            != path@ by {
            lemma_last_index_of(pairs, k);
            let j = last_index_of(pairs, k);
            lemma_value_at_last(state.artifacts, j);
        }
    }
    false
}

/// Checks an uploaded payload against the hash the commit records.
pub fn payload_check(payload: &[u8], compressed: bool, hash: &str) -> (r: Result<(), Status>)
    ensures
        r == payload_verdict(payload@, compressed, hash@),
{
    if compressed {
        match gunzip(payload) {
            None => Err(Status::BadRequest),
            Some(d) => {
                let h = content_hash(d.as_slice());
                if same_text(h.as_str(), hash) {
                    Ok(())
                } else {
                    Err(Status::BadRequest)
                }
            },
        }
    } else {
        let h = content_hash(payload);
        if same_text(h.as_str(), hash) {
            Ok(())
        } else {
            Err(Status::BadRequest)
        }
    }
}

/// The path a newly pushed artifact `id` gets.
fn pushed_path_text(meta: &PushMetadata, id: &str) -> (p: String)
    ensures
        p@ == pushed_path(meta.artifact_paths.vmap(), id@),
{
    match meta.artifact_paths.get(id) {
        Some(p) => p.clone(),
        None => owned(id),
    }
}

/// Checks file `i` of a push after the files before it.
pub fn upload_check(state: &AppState, meta: &PushMetadata, files: &[(String, Vec<u8>)], i: usize) -> (r: Result<
    (),
    Status,
>)
    requires
        i < files@.len(),
    ensures
        r == upload_verdict(
            state.artifacts.vmap(),
            *meta,
            pushed_files(files@).take(i as int),
            files@[i as int].0@,
            files@[i as int].1@,
        ),
{
    let ghost m = state.artifacts.vmap();
    let ghost pf = pushed_files(files@);
    let ghost earlier = pf.take(i as int);
    let id = files[i].0.as_str();
    let payload = files[i].1.as_slice();
    let mut j: usize = 0;
    while j < i
        invariant
            j <= i < files@.len(),
            pf == pushed_files(files@),
            earlier == pf.take(i as int),
            id@ == files@[i as int].0@,
            forall|k: int| 0 <= k < j ==> #[trigger] earlier[k].0 != id@,
        decreases i - j,
    {
        if same_text(files[j].0.as_str(), id) {
            assert(earlier[j as int].0 == id@);
            return Err(Status::BadRequest);
        }
        j += 1;
    }
    assert(!named_earlier(earlier, id@));
    let c = match find_change(&meta.commit.artifacts, id) {
        None => return Err(Status::BadRequest),
        Some(k) => &meta.commit.artifacts[k],
    };
    let compressed = match meta.artifact_compression.get(id) {
        Some(b) => *b,
        None => false,
    };
    match state.artifacts.find(id) {
        Some(k) => {
            proof {
                lemma_value_at_last(state.artifacts, k as int);
            }
            let a = state.artifacts.value_at(k);
            let held = match &a.locked_by {
                Some(h) => same_text(h.as_str(), meta.commit.author.as_str()),
                None => false,
            };
            if !held {
                return Err(Status::Forbidden);
            }
            if c.revision_base != a.latest {
                return Err(Status::Conflict);
            }
            payload_check(payload, compressed, c.hash.as_str())
        },
        None => {
            let path = pushed_path_text(meta, id);
            if path_in_use(state, path.as_str()) {
                return Err(Status::Conflict);
            }
            let mut j: usize = 0;
            while j < i
                invariant
                    j <= i < files@.len(),
                    pf == pushed_files(files@),
                    earlier == pf.take(i as int),
                    m == state.artifacts.vmap(),
                    path@ == pushed_path(meta.artifact_paths.vmap(), id@),
                    id@ == files@[i as int].0@,
                    !named_earlier(earlier, id@),
                    change_for(meta.commit.artifacts@, id@) == Some(*c),
                    !m.dom().contains(id@),
                    !path_taken(m, path@),
                    forall|k: int|
                        0 <= k < j ==> !(!m.dom().contains(#[trigger] earlier[k].0) && pushed_path(
                            meta.artifact_paths.vmap(),
                            earlier[k].0,
                        ) == path@),
                decreases i - j,
            {
                let other = files[j].0.as_str();
                if !state.artifacts.contains_key(other) {
                    let p = pushed_path_text(meta, other);
                    if same_text(p.as_str(), path.as_str()) {
                        assert(earlier[j as int].0 == other@);
                        assert(!m.dom().contains(other@));
                        assert(claimed_earlier(m, meta.artifact_paths.vmap(), earlier, path@));
                        return Err(Status::Conflict);
                    }
                }
                assert(earlier[j as int].0 == other@);
                j += 1;
            }
            assert(!claimed_earlier(m, meta.artifact_paths.vmap(), earlier, path@));
            payload_check(payload, compressed, c.hash.as_str())
        },
    }
}

/// Checks every file of a push before anything is stored: the refusal of
/// the first refused file, or acceptance of the whole push.
pub fn push_check(state: &AppState, meta: &PushMetadata, files: &[(String, Vec<u8>)]) -> (r: Result<
    (),
    Status,
>)
    ensures
        r == push_verdict(state.artifacts.vmap(), *meta, pushed_files(files@)),
{
    let ghost m = state.artifacts.vmap();
    let ghost pf = pushed_files(files@);
    assert(pf.take(0) =~= Seq::<(Seq<char>, Seq<u8>)>::empty());
    let mut i: usize = 0;
    while i < files.len()
        invariant
            i <= files@.len(),
            pf == pushed_files(files@),
            m == state.artifacts.vmap(),
            push_verdict(m, *meta, pf.take(i as int)) == Ok::<(), Status>(()),
        decreases files@.len() - i,
    {
        let v = upload_check(state, meta, files, i);
        proof {
            assert(pf.take(i + 1).drop_last() =~= pf.take(i as int));
            assert(pf.take(i + 1).last() == pf[i as int]);
        }
        match v {
            Err(s) => {
                proof {
                    lemma_refused_prefix(m, *meta, pf, i + 1);
                }
                return Err(s);
            },
            Ok(()) => {},
        }
        i += 1;
    }
    assert(pf.take(files@.len() as int) =~= pf);
    Ok(())
}

/// The artifacts after every file of a push is stored, in order.
pub open spec fn after_push(m: ArtifactMap, meta: PushMetadata, files: Seq<(Seq<char>, Seq<u8>)>) -> ArtifactMap
    decreases files.len(),
{
    if files.len() == 0 {
        m
    } else {
        let id = files.last().0;
        after_push_upload(
            after_push(m, meta, files.drop_last()),
            id,
            files.last().1,
            pushed_compressed(meta.artifact_compression@, id),
            pushed_path(meta.artifact_paths.vmap(), id),
        )
    }
}

/// No two files of an accepted push name the same artifact.
proof fn lemma_accepted_ids_distinct(m: ArtifactMap, meta: PushMetadata, f: Seq<(Seq<char>, Seq<u8>)>)
    requires
        push_verdict(m, meta, f) is Ok,
    ensures
        forall|i: int, j: int| 0 <= i < j < f.len() ==> #[trigger] f[i].0 != #[trigger] f[j].0,
{
    lemma_accepted_files(m, meta, f);
    assert forall|i: int, j: int| 0 <= i < j < f.len() implies #[trigger] f[i].0 != #[trigger] f[j].0 by {
        assert(upload_verdict(m, meta, f.take(j), f[j].0, f[j].1) is Ok);
        assert(f.take(j)[i] == f[i]);
    }
}

/// Takes a push: checks every file as `push_check` does and, only when all
/// pass, stores each one as `apply_push_upload` does. A refused push
/// changes nothing.
pub fn accept_push(state: &mut AppState, meta: &PushMetadata, files: &[(String, Vec<u8>)]) -> (r: Result<
    (),
    Status,
>)
    requires
        forall|j: int|
            0 <= j < files@.len() && old(state).artifacts.vmap().dom().contains(#[trigger] files@[j].0@)
                ==> old(state).artifacts.vmap()[files@[j].0@].latest < u32::MAX,
    ensures
        r == push_verdict(old(state).artifacts.vmap(), *meta, pushed_files(files@)),
        r is Ok ==> final(state).artifacts.vmap() == after_push(
            old(state).artifacts.vmap(),
            *meta,
            pushed_files(files@),
        ),
        r is Err ==> final(state).artifacts.vmap() == old(state).artifacts.vmap(),
        final(state).project_dir == old(state).project_dir,
        final(state).git_modules == old(state).git_modules,
{
    let verdict = push_check(state, meta, files);
    if verdict.is_err() {
        return verdict;
    }
    let ghost m = state.artifacts.vmap();
    let ghost pf = pushed_files(files@);
    proof {
        lemma_accepted_ids_distinct(m, *meta, pf);
        assert(pf.take(0) =~= Seq::<(Seq<char>, Seq<u8>)>::empty());
    }
    let mut i: usize = 0;
    while i < files.len()
        invariant
            i <= files@.len(),
            pf == pushed_files(files@),
            pf.len() == files@.len(),
            forall|a: int, b: int| 0 <= a < b < pf.len() ==> #[trigger] pf[a].0 != #[trigger] pf[b].0,
            forall|j: int|
                0 <= j < files@.len() && m.dom().contains(#[trigger] files@[j].0@) ==> m[files@[j].0@].latest
                    < u32::MAX,
            state.artifacts.vmap() == after_push(m, *meta, pf.take(i as int)),
            forall|j: int|
                i <= j < pf.len() ==> (state.artifacts.vmap().dom().contains(#[trigger] pf[j].0)
                    == m.dom().contains(pf[j].0)) && (m.dom().contains(pf[j].0) ==> state.artifacts.vmap()[pf[j].0]
                    == m[pf[j].0]),
            state.project_dir == old(state).project_dir,
            state.git_modules == old(state).git_modules,
        decreases files@.len() - i,
    {
        let ghost before = state.artifacts.vmap();
        assert(pf[i as int].0 == files@[i as int].0@);
        apply_push_upload(state, meta, files[i].0.as_str(), files[i].1.as_slice());
        proof {
            assert(pf.take(i + 1).drop_last() =~= pf.take(i as int));
            assert(pf.take(i + 1).last() == pf[i as int]);
            assert forall|j: int| i + 1 <= j < pf.len() implies (state.artifacts.vmap().dom().contains(
                #[trigger] pf[j].0,
            ) == m.dom().contains(pf[j].0)) && (m.dom().contains(pf[j].0) ==> state.artifacts.vmap()[pf[j].0]
                == m[pf[j].0]) by {
                assert(pf[i as int].0 != pf[j].0);
                assert(before.dom().contains(pf[j].0) == m.dom().contains(pf[j].0));
            }
        }
        i += 1;
    }
    assert(pf.take(files@.len() as int) =~= pf);
    Ok(())
}

/// `c` with the revision base of every change to a known artifact set to
/// that artifact's latest revision.
pub open spec fn rebased_change(m: ArtifactMap, c: CommitArtifact, r: CommitArtifact) -> bool {
    &&& r.path == c.path
    &&& r.artifact_id == c.artifact_id
    &&& r.hash == c.hash
    &&& r.op == c.op
    &&& r.revision_base == if m.dom().contains(c.artifact_id@) {
        m[c.artifact_id@].latest
    } else {
        c.revision_base
    }
}

/// The pushed commit with its changes based on the server's revisions.
pub fn rebase_commit(state: &AppState, commit: Commit) -> (r: Commit)
    ensures
        r.id == commit.id,
        r.parent == commit.parent,
        r.message == commit.message,
        r.author == commit.author,
        r.timestamp == commit.timestamp,
        r.artifacts@.len() == commit.artifacts@.len(),
        forall|i: int|
            0 <= i < r.artifacts@.len() ==> rebased_change(
                state.artifacts.vmap(),
                commit.artifacts@[i],
                #[trigger] r.artifacts@[i],
            ),
{
    let Commit { id, parent, message, author, artifacts, timestamp } = commit;
    let mut out: Vec<CommitArtifact> = Vec::new();
    let mut i: usize = 0;
    while i < artifacts.len()
        invariant
            i <= artifacts@.len(),
            out@.len() == i,
            forall|j: int|
                0 <= j < i ==> rebased_change(state.artifacts.vmap(), artifacts@[j], #[trigger] out@[j]),
        decreases artifacts@.len() - i,
    {
        let mut c = artifacts[i].clone();
        match state.artifacts.find(c.artifact_id.as_str()) {
            Some(k) => {
                proof {
                    lemma_value_at_last(state.artifacts, k as int);
                }
                c.revision_base = state.artifacts.value_at(k).latest;
            },
            None => {},
        }
        out.push(c);
        i += 1;
    }
    Commit { id, parent, message, author, artifacts: out, timestamp }
}

/// The identifier of a commit from its parent, message, author and the JSON
/// text of its changes.
pub fn commit_id(parent: &Option<String>, message: &str, author: &str, artifacts_json: &[u8]) -> (id: String)
    ensures
        id@ == commit_id_of(parent.deep_view(), message@, author@, artifacts_json@),
{
    let mut data: Vec<u8> = Vec::new();
    match parent {
        Some(p) => append_bytes(&mut data, p.as_str().as_bytes()),
        None => {},
    }
    append_bytes(&mut data, message.as_bytes());
    append_bytes(&mut data, author.as_bytes());
    append_bytes(&mut data, artifacts_json);
    proof {
        let p = match parent.deep_view() {
            Some(p) => p,
            None => Seq::<char>::empty(),
        };
        if parent is None {
            assert(encode_utf8(Seq::<char>::empty()) =~= Seq::<u8>::empty()) by {
                reveal_with_fuel(encode_utf8, 1);
            }
        }
        assert(data@ =~= encode_utf8(p) + encode_utf8(message@) + encode_utf8(author@)
            + artifacts_json@);
    }
    let digest = sha1_digest(&data);
    hex_text(&digest)
}

fn append_bytes(data: &mut Vec<u8>, more: &[u8])
    ensures
        final(data)@ == old(data)@ + more@,
{
    let mut i: usize = 0;
    while i < more.len()
        invariant
            i <= more@.len(),
            data@ == old(data)@ + more@.take(i as int),
        decreases more@.len() - i,
    {
        data.push(more[i]);
        i += 1;
        assert(more@.take(i as int) =~= more@.take(i - 1).push(more@[i - 1]));
    }
    assert(more@.take(more@.len() as int) =~= more@);
}

/// The pushed commit with its authoritative identifier.
pub fn seal_commit(commit: Commit, artifacts_json: &[u8]) -> (r: Commit)
    ensures
        r.id@ == commit_id_of(commit.parent.deep_view(), commit.message@, commit.author@, artifacts_json@),
        r.parent == commit.parent,
        r.message == commit.message,
        r.author == commit.author,
        r.artifacts == commit.artifacts,
        r.timestamp == commit.timestamp,
{
    let id = commit_id(&commit.parent, commit.message.as_str(), commit.author.as_str(), artifacts_json);
    Commit { id, ..commit }
}

/// The index a newly created project starts with: its name, the default
/// server, no commit and nothing tracked.
pub fn new_project_index(name: &str) -> (ix: IndexFile)
    ensures
        ix.project@ == name@,
        ix.server_url.deep_view() == Some("http://localhost:3000"@),
        ix.username is None,
        ix.latest_commit@.len() == 0,
        ix.refs.pairs().len() == 0,
        ix.artifacts.pairs().len() == 0,
        ix.git_modules.pairs().len() == 0,
        ix.commits.pairs().len() == 0,
{
    IndexFile {
        project: owned(name),
        server_url: Some(String::from_str("http://localhost:3000")),
        username: None,
        latest_commit: String::new(),
        refs: StrMap::new(),
        artifacts: StrMap::new(),
        git_modules: StrMap::new(),
        commits: StrMap::new(),
    }
}

/// How far creating a project got: the first step that failed, or success.
pub enum ProjectCreation {
    /// The request carried no bearer token.
    NoToken,
    /// The token did not verify.
    BadToken,
    /// The token's subject is not a user id.
    BadSubject,
    /// A project of that name exists.
    Exists,
    /// The project record could not be stored.
    RecordFailed,
    /// The owner's admin permission could not be stored.
    OwnerFailed,
    /// The project directory could not be made.
    DirectoryFailed,
    /// The initial index could not be written.
    IndexFailed,
    /// The new project could not be loaded; the reason.
    LoadFailed(String),
    /// The project exists now.
    Created,
}

/// The status and message a project creation is answered with.
pub open spec fn project_creation_reply_of(outcome: ProjectCreation) -> (Status, Seq<char>) {
    match outcome {
        ProjectCreation::NoToken => (Status::Unauthorized, "Authorization required"@),
        ProjectCreation::BadToken => (Status::Unauthorized, "Invalid token"@),
        ProjectCreation::BadSubject => (Status::BadRequest, "Invalid user id"@),
        ProjectCreation::Exists => (Status::Conflict, "Project already exists"@),
        ProjectCreation::RecordFailed => (Status::InternalServerError, "Failed to create project in DB"@),
        ProjectCreation::OwnerFailed => (Status::InternalServerError, "Failed to set owner permission"@),
        ProjectCreation::DirectoryFailed => (Status::InternalServerError, "Failed to create project directory"@),
        ProjectCreation::IndexFailed => (Status::InternalServerError, "Failed to create index.json"@),
        ProjectCreation::LoadFailed(e) => (Status::InternalServerError, "Failed to load project: "@ + e@),
        ProjectCreation::Created => (Status::Created, "Project created successfully"@),
    }
}

/// Answers a project creation request from how far it got.
pub fn project_creation_reply(outcome: ProjectCreation) -> (r: (Status, String))
    ensures
        (r.0, r.1@) == project_creation_reply_of(outcome),
{
    match outcome {
        ProjectCreation::NoToken => (Status::Unauthorized, String::from_str("Authorization required")),
        ProjectCreation::BadToken => (Status::Unauthorized, String::from_str("Invalid token")),
        ProjectCreation::BadSubject => (Status::BadRequest, String::from_str("Invalid user id")),
        ProjectCreation::Exists => (Status::Conflict, String::from_str("Project already exists")),
        ProjectCreation::RecordFailed => (Status::InternalServerError, String::from_str("Failed to create project in DB")),
        ProjectCreation::OwnerFailed => (Status::InternalServerError, String::from_str("Failed to set owner permission")),
        ProjectCreation::DirectoryFailed => (Status::InternalServerError, String::from_str("Failed to create project directory")),
        ProjectCreation::IndexFailed => (Status::InternalServerError, String::from_str("Failed to create index.json")),
        ProjectCreation::LoadFailed(e) => (Status::InternalServerError, concat("Failed to load project: ", e.as_str())),
        ProjectCreation::Created => (Status::Created, String::from_str("Project created successfully")),
    }
}

/// The ref a push updates: the one it names, else the main branch.
pub open spec fn pushed_ref(ref_name: Option<Seq<char>>) -> Seq<char> {
    match ref_name {
        Some(r) => r,
        None => "refs/heads/main"@,
    }
}

/// Records a pushed commit: stores it under its id and points the pushed
/// ref at it.
pub fn record_push(
    refs: &mut StrMap<String>,
    commits: &mut StrMap<Commit>,
    ref_name: Option<String>,
    commit: Commit,
)
    ensures
        final(refs).vmap() == old(refs).vmap().insert(pushed_ref(ref_name.deep_view()), commit.id@),
        final(commits)@ == old(commits)@.insert(commit.id@, commit),
{
    let key = match ref_name {
        Some(r) => r,
        None => String::from_str("refs/heads/main"),
    };
    let ghost kv = key@;
    assert(kv == pushed_ref(ref_name.deep_view()));
    refs.insert(key, commit.id.clone());
    assert(refs.vmap() =~= old(refs).vmap().insert(kv, commit.id@));
    commits.insert(commit.id.clone(), commit);
}

} // verus!
