//! Properties that span requests and commands: of the server's artifact
//! store, and of the workspace index the client keeps.
use vstd::prelude::*;
use crate::access::login_outcome;
use crate::codec::{bcrypt_verdict, content_hash_of};
use crate::protocol::{
    history_well_formed, placeholder_word, unstaged_word, Artifact, ArtifactView, CommitArtifact,
    IndexArtifactView, RevisionView, User,
};
use crate::server::{
    after_lock, after_push_upload, after_revision, after_unlock, appended, fresh_artifact, holder,
    lock_decision, push_revision, revision_decision, unlock_decision, unlock_needs_admin,
    with_holder, ArtifactMap, LockDecision, Status, UnlockDecision, change_for, lemma_accepted_files,
    path_taken, push_verdict, upload_verdict, pushed_compressed, pushed_path, PushMetadata,
};
use crate::sync::{clone_target, unpacked_of, cloned_entries, fetched_entries, pull_check_of, pushed_entries, revision_compressed};
use crate::workspace::commit_entries;

verus! {

/// A lock has one holder: while `u` holds the lock on `id`, a lock request
/// by any other user is refused and changes nothing.
pub proof fn lock_is_exclusive(m: ArtifactMap, id: Seq<char>, u: Seq<char>, v: Seq<char>, rev: u32)
    requires
        holder(m, id) == Some(u),
        v != u,
    ensures
        lock_decision(m, id, v, rev) == LockDecision::Held,
        after_lock(m, id, v, rev) == m,
        holder(after_lock(m, id, v, rev), id) == Some(u),
{
}

/// Locking a free artifact from an up-to-date copy makes the requester its
/// holder and changes no other artifact.
pub proof fn lock_names_requester(m: ArtifactMap, id: Seq<char>, u: Seq<char>, rev: u32)
    requires
        m.dom().contains(id),
        holder(m, id) is None,
        rev >= m[id].latest,
    ensures
        lock_decision(m, id, u, rev) == LockDecision::Granted,
        holder(after_lock(m, id, u, rev), id) == Some(u),
        forall|k: Seq<char>| k != id ==> #[trigger] after_lock(m, id, u, rev).dom().contains(k) == m.dom().contains(k)
            && (m.dom().contains(k) ==> after_lock(m, id, u, rev)[k] == m[k]),
{
}

/// A copy older than the latest revision gets no lock: the request is
/// refused and changes nothing, so its holder has to pull first.
pub proof fn outdated_copy_gets_no_lock(m: ArtifactMap, id: Seq<char>, u: Seq<char>, rev: u32)
    requires
        m.dom().contains(id),
        holder(m, id) is None,
        rev < m[id].latest,
    ensures
        lock_decision(m, id, u, rev) == LockDecision::Outdated,
        after_lock(m, id, u, rev) == m,
        holder(after_lock(m, id, u, rev), id) is None,
{
}

/// Asking again for a lock one holds changes nothing.
pub proof fn relock_is_idempotent(m: ArtifactMap, id: Seq<char>, u: Seq<char>, rev: u32)
    requires
        holder(m, id) == Some(u),
    ensures
        lock_decision(m, id, u, rev) == LockDecision::AlreadyHeld,
        after_lock(m, id, u, rev) == m,
{
}

/// Only the holder, or a user allowed to force, releases a lock: any other
/// unlock request is refused and changes nothing.
pub proof fn unlock_needs_holder_or_force(
    m: ArtifactMap,
    id: Seq<char>,
    u: Seq<char>,
    v: Seq<char>,
    force: bool,
    may_force: bool,
)
    requires
        holder(m, id) == Some(u),
        v != u,
        !(force && may_force),
    ensures
        unlock_decision(m, id, v, force, may_force) == UnlockDecision::Denied,
        after_unlock(m, id, v, force, may_force) == m,
{
}

/// The requester's admin rights matter only when it forces a lock that
/// another user holds: elsewhere the decision and its effect are the same
/// whatever the rights.
pub proof fn admin_rights_matter_only_when_forcing(
    m: ArtifactMap,
    id: Seq<char>,
    u: Seq<char>,
    force: bool,
    may_force: bool,
)
    ensures
        unlock_decision(m, id, u, force, may_force) == unlock_decision(
            m,
            id,
            u,
            force,
            unlock_needs_admin(m, id, u, force) && may_force,
        ),
        after_unlock(m, id, u, force, may_force) == after_unlock(
            m,
            id,
            u,
            force,
            unlock_needs_admin(m, id, u, force) && may_force,
        ),
{
}

/// A lock taken and then released by the same user leaves the artifact as
/// it was.
pub proof fn lock_then_unlock_restores(
    m: ArtifactMap,
    id: Seq<char>,
    u: Seq<char>,
    rev: u32,
    force: bool,
    may_force: bool,
)
    requires
        m.dom().contains(id),
        holder(m, id) is None,
        rev >= m[id].latest,
    ensures
        unlock_decision(after_lock(m, id, u, rev), id, u, force, may_force) == UnlockDecision::Released,
        after_unlock(after_lock(m, id, u, rev), id, u, force, may_force) == m,
{
    assert(after_unlock(after_lock(m, id, u, rev), id, u, force, may_force) =~= m);
}

/// The server takes a push only when every file it uploads is in order:
/// the commit has a change for it, and the payload unpacks to content with
/// the hash that change records; an artifact the server knows is locked by
/// the commit's author, and the change is based on its latest revision; a
/// new artifact's path is held by no stored artifact and by no other new
/// artifact of the push; and no other file of the push names the same
/// artifact. Anything else is refused.
pub proof fn accepted_push_is_sound(
    m: ArtifactMap,
    meta: PushMetadata,
    files: Seq<(Seq<char>, Seq<u8>)>,
    i: int,
)
    requires
        push_verdict(m, meta, files) is Ok,
        0 <= i < files.len(),
    ensures
        ({
            let id = files[i].0;
            let paths = meta.artifact_paths.vmap();
            &&& change_for(meta.commit.artifacts@, id) matches Some(c) && (unpacked_of(
                files[i].1,
                pushed_compressed(meta.artifact_compression@, id),
            ) matches Some(d) && content_hash_of(d) == c.hash@) && (m.dom().contains(id) ==> m[id].locked_by
                == Some(meta.commit.author@) && c.revision_base == m[id].latest)
            &&& !m.dom().contains(id) ==> !path_taken(m, pushed_path(paths, id))
            &&& forall|j: int| 0 <= j < files.len() && j != i ==> #[trigger] files[j].0 != id
            &&& forall|j: int|
                0 <= j < files.len() && j != i && !m.dom().contains(id) && !m.dom().contains(
                    #[trigger] files[j].0,
                ) ==> pushed_path(paths, files[j].0) != pushed_path(paths, id)
        }),
{
    lemma_accepted_files(m, meta, files);
    let id = files[i].0;
    let paths = meta.artifact_paths.vmap();
    assert(upload_verdict(m, meta, files.take(i), files[i].0, files[i].1) is Ok);
    assert forall|j: int| 0 <= j < files.len() && j != i implies #[trigger] files[j].0 != id by {
        if j < i {
            assert(files.take(i)[j] == files[j]);
        } else {
            assert(upload_verdict(m, meta, files.take(j), files[j].0, files[j].1) is Ok);
            assert(files.take(j)[i] == files[i]);
        }
    }
    assert forall|j: int|
        0 <= j < files.len() && j != i && !m.dom().contains(id) && !m.dom().contains(
            #[trigger] files[j].0,
        ) implies pushed_path(paths, files[j].0) != pushed_path(paths, id) by {
        if j < i {
            assert(files.take(i)[j] == files[j]);
        } else {
            assert(upload_verdict(m, meta, files.take(j), files[j].0, files[j].1) is Ok);
            assert(files.take(j)[i] == files[i]);
        }
    }
}

/// A new revision needs a lock: on an unlocked artifact the request is
/// refused.
pub proof fn revision_needs_lock(m: ArtifactMap, id: Seq<char>)
    requires
        m.dom().contains(id),
        holder(m, id) is None,
    ensures
        revision_decision(m, id) == Err::<u32, Status>(Status::Conflict),
{
}

/// A new revision is numbered one past the latest, is appended to the
/// history and keeps the history well formed and the lock in place.
pub proof fn revision_extends_history(m: ArtifactMap, id: Seq<char>, data: Seq<u8>)
    requires
        revision_decision(m, id) is Ok,
        m[id].latest < u32::MAX,
        history_well_formed(m[id]),
    ensures
        revision_decision(m, id) == Ok::<u32, Status>((m[id].latest + 1) as u32),
        after_revision(m, id, data)[id].latest == m[id].latest + 1,
        after_revision(m, id, data)[id].revisions.drop_last() == m[id].revisions,
        after_revision(m, id, data)[id].locked_by == m[id].locked_by,
        history_well_formed(after_revision(m, id, data)[id]),
{
    appended_well_formed(m[id], data, false);
    assert(after_revision(m, id, data)[id].revisions.drop_last() =~= m[id].revisions);
}

/// Appending a revision keeps a history well formed.
pub proof fn appended_well_formed(a: ArtifactView, data: Seq<u8>, compressed: bool)
    requires
        history_well_formed(a),
        a.latest < u32::MAX,
    ensures
        history_well_formed(appended(a, data, compressed)),
        history_well_formed(with_holder(appended(a, data, compressed), None)),
{
    let b = appended(a, data, compressed);
    assert forall|i: int| 0 <= i < b.revisions.len() implies #[trigger] b.revisions[i].rev == i + 1 by {
        if i < a.revisions.len() {
            assert(b.revisions[i] == a.revisions[i]);
        }
    }
}

/// A push of a known artifact stores its payload as the next revision and
/// releases the lock; a push of a new artifact starts it at revision 1,
/// unlocked. Either way the history stays well formed.
pub proof fn push_bumps_revision_and_releases_lock(
    m: ArtifactMap,
    id: Seq<char>,
    data: Seq<u8>,
    compressed: bool,
    path: Seq<char>,
)
    requires
        m.dom().contains(id) ==> m[id].latest < u32::MAX && history_well_formed(m[id]),
    ensures
        after_push_upload(m, id, data, compressed, path).dom().contains(id),
        holder(after_push_upload(m, id, data, compressed, path), id) is None,
        after_push_upload(m, id, data, compressed, path)[id].latest == if m.dom().contains(id) {
            m[id].latest + 1
        } else {
            1
        },
        history_well_formed(after_push_upload(m, id, data, compressed, path)[id]),
{
    if m.dom().contains(id) {
        appended_well_formed(m[id], data, compressed);
    } else {
        let f = fresh_artifact(id, path, data, compressed);
        assert(f.revisions[0].rev == 1);
    }
}

/// What `m2` keeps of `m`: every artifact, with its earlier revisions
/// untouched at the front of its history.
pub open spec fn keeps_histories(m: ArtifactMap, m2: ArtifactMap) -> bool {
    forall|k: Seq<char>| #[trigger] m.dom().contains(k) ==> m2.dom().contains(k)
        && m2[k].revisions.len() >= m[k].revisions.len()
        && m2[k].revisions.take(m[k].revisions.len() as int) == m[k].revisions
}

/// Stored revisions are never changed or dropped: locking, unlocking, a new
/// revision and a push only ever append to a history.
pub proof fn histories_are_append_only(
    m: ArtifactMap,
    id: Seq<char>,
    u: Seq<char>,
    rev: u32,
    force: bool,
    may_force: bool,
    data: Seq<u8>,
    compressed: bool,
    path: Seq<char>,
)
    ensures
        keeps_histories(m, after_lock(m, id, u, rev)),
        keeps_histories(m, after_unlock(m, id, u, force, may_force)),
        revision_decision(m, id) is Ok ==> keeps_histories(m, after_revision(m, id, data)),
        keeps_histories(m, after_push_upload(m, id, data, compressed, path)),
{
    assert forall|k: Seq<char>| #[trigger] m.dom().contains(k) implies m[k].revisions.take(
        m[k].revisions.len() as int,
    ) == m[k].revisions by {
        assert(m[k].revisions.take(m[k].revisions.len() as int) =~= m[k].revisions);
    }
    if m.dom().contains(id) {
        let a = m[id];
        let b = appended(a, data, compressed);
        assert(b.revisions.take(a.revisions.len() as int) =~= a.revisions);
        let c = appended(a, data, false);
        assert(c.revisions.take(a.revisions.len() as int) =~= a.revisions);
    }
}

/// Every request of the store keeps every history well formed.
pub proof fn store_keeps_histories_well_formed(
    m: ArtifactMap,
    id: Seq<char>,
    u: Seq<char>,
    rev: u32,
    force: bool,
    may_force: bool,
    data: Seq<u8>,
    compressed: bool,
    path: Seq<char>,
)
    requires
        forall|k: Seq<char>| #[trigger] m.dom().contains(k) ==> history_well_formed(m[k]),
        m.dom().contains(id) ==> m[id].latest < u32::MAX,
    ensures
        forall|k: Seq<char>| #[trigger] after_lock(m, id, u, rev).dom().contains(k) ==> history_well_formed(
            after_lock(m, id, u, rev)[k],
        ),
        forall|k: Seq<char>| #[trigger] after_unlock(m, id, u, force, may_force).dom().contains(k)
            ==> history_well_formed(after_unlock(m, id, u, force, may_force)[k]),
        revision_decision(m, id) is Ok ==> forall|k: Seq<char>| #[trigger] after_revision(
            m,
            id,
            data,
        ).dom().contains(k) ==> history_well_formed(after_revision(m, id, data)[k]),
        forall|k: Seq<char>| #[trigger] after_push_upload(m, id, data, compressed, path).dom().contains(
            k,
        ) ==> history_well_formed(after_push_upload(m, id, data, compressed, path)[k]),
{
    if m.dom().contains(id) {
        appended_well_formed(m[id], data, compressed);
        appended_well_formed(m[id], data, false);
    }
    push_bumps_revision_and_releases_lock(m, id, data, compressed, path);
}

// ---------------------------------------------------------------------
// From push to pull
// ---------------------------------------------------------------------

/// Looking a revision number up in a history with one more revision finds
/// the new one, when no earlier revision has that number.
proof fn lemma_revision_compressed_push(revs: Seq<RevisionView>, x: RevisionView, r: u32)
    requires
        forall|j: int| 0 <= j < revs.len() ==> #[trigger] revs[j].rev != r,
    ensures
        revision_compressed(revs.push(x), r) == if x.rev == r {
            Some(x.compressed)
        } else {
            None
        },
    decreases revs.len(),
{
    if revs.len() > 0 {
        assert(revs.push(x).drop_first() =~= revs.drop_first().push(x));
        assert(revs.push(x)[0] == revs[0]);
        assert(revs[0].rev != r);
        assert forall|j: int| 0 <= j < revs.drop_first().len() implies #[trigger] revs.drop_first()[j].rev != r by {
            assert(revs.drop_first()[j] == revs[j + 1]);
        }
        lemma_revision_compressed_push(revs.drop_first(), x, r);
        assert(revision_compressed(revs.push(x), r) == revision_compressed(revs.drop_first().push(x), r));
    } else {
        let one = revs.push(x);
        assert(one.drop_first() =~= Seq::<RevisionView>::empty());
        assert(one[0] == x);
        assert(revision_compressed(one.drop_first(), r) is None);
    }
}

/// What a push stores is what a pull of that revision finds: the pushed
/// artifact has a revision numbered as the push said, holding the hash of
/// the pushed payload, and the check before a pull of that revision
/// reports the compression flag the push sent (unless the pull would
/// overwrite a file the user holds the lock of).
pub proof fn pushed_revision_is_pulled(
    m: ArtifactMap,
    id: Seq<char>,
    data: Seq<u8>,
    compressed: bool,
    path: Seq<char>,
    standard: bool,
    local: Map<Seq<char>, IndexArtifactView>,
    username: Option<Seq<char>>,
    target_path: Seq<char>,
)
    requires
        m.dom().contains(id) ==> m[id].latest < u32::MAX && history_well_formed(m[id]),
        !(standard && local.dom().contains(target_path) && local[target_path].locked
            && local[target_path].lock_owner == username),
    ensures
        ({
            let after = after_push_upload(m, id, data, compressed, path);
            let rev = push_revision(m, id);
            &&& after.dom().contains(id)
            &&& after[id].latest == rev
            &&& after[id].revisions.last().rev == rev
            &&& after[id].revisions.last().hash == content_hash_of(data)
            &&& revision_compressed(after[id].revisions, rev) == Some(compressed)
            &&& pull_check_of(standard, local, username, after, (target_path, id, rev)) == Ok::<
                bool,
                Seq<char>,
            >(compressed)
        }),
{
    let after = after_push_upload(m, id, data, compressed, path);
    let rev = push_revision(m, id);
    if m.dom().contains(id) {
        let old_revs = m[id].revisions;
        assert forall|j: int| 0 <= j < old_revs.len() implies #[trigger] old_revs[j].rev != rev by {
            assert(old_revs[j].rev == j + 1);
        }
        lemma_revision_compressed_push(old_revs, after[id].revisions.last(), rev);
        assert(after[id].revisions == old_revs.push(after[id].revisions.last()));
    } else {
        lemma_revision_compressed_push(Seq::empty(), after[id].revisions.last(), rev);
        assert(after[id].revisions =~= Seq::<RevisionView>::empty().push(after[id].revisions.last()));
    }
}

// ---------------------------------------------------------------------
// The workspace index
// ---------------------------------------------------------------------

/// An entry whose payload is not pulled, that nobody has locked and that is
/// not staged: the state of a read-only, 0-byte placeholder file.
pub open spec fn is_untouched_placeholder(e: IndexArtifactView) -> bool {
    &&& e.local_state == placeholder_word()
    &&& !e.locked
    &&& e.lock_owner is None
    &&& e.stage == unstaged_word()
    &&& e.staged is None
}

/// After a checkout every artifact of the target commit is tracked, and
/// every tracked artifact is an unlocked placeholder.
pub proof fn checkout_leaves_placeholders(changes: Seq<CommitArtifact>)
    ensures
        forall|i: int| 0 <= i < changes.len() ==> #[trigger] commit_entries(changes).dom().contains(changes[i].path@),
        forall|p: Seq<char>| #[trigger] commit_entries(changes).dom().contains(p) ==> is_untouched_placeholder(
            commit_entries(changes)[p],
        ),
    decreases changes.len(),
{
    if changes.len() > 0 {
        let prev = changes.drop_last();
        checkout_leaves_placeholders(prev);
        assert(commit_entries(changes) == commit_entries(prev).insert(
            changes.last().path@,
            crate::protocol::placeholder_view(changes.last().artifact_id@, changes.last().revision_base),
        ));
        assert forall|i: int| 0 <= i < changes.len() implies #[trigger] commit_entries(changes).dom().contains(
            changes[i].path@,
        ) by {
            if i < changes.len() - 1 {
                assert(prev[i] == changes[i]);
                assert(commit_entries(prev).dom().contains(prev[i].path@));
            }
        }
    }
}

/// After a clone every server artifact's path is tracked, and every
/// tracked artifact is an unlocked placeholder.
pub proof fn clone_leaves_placeholders(pairs: Seq<(Seq<char>, Artifact)>)
    ensures
        forall|i: int| 0 <= i < pairs.len() ==> #[trigger] cloned_entries(pairs).dom().contains(pairs[i].1.path@),
        forall|p: Seq<char>| #[trigger] cloned_entries(pairs).dom().contains(p) ==> is_untouched_placeholder(
            cloned_entries(pairs)[p],
        ),
    decreases pairs.len(),
{
    if pairs.len() > 0 {
        let prev = pairs.drop_last();
        clone_leaves_placeholders(prev);
        assert(cloned_entries(pairs) == cloned_entries(prev).insert(
            pairs.last().1.path@,
            crate::protocol::placeholder_view(pairs.last().1.id@, pairs.last().1.latest),
        ));
        assert forall|i: int| 0 <= i < pairs.len() implies #[trigger] cloned_entries(pairs).dom().contains(
            pairs[i].1.path@,
        ) by {
            if i < pairs.len() - 1 {
                assert(prev[i] == pairs[i]);
                assert(cloned_entries(prev).dom().contains(prev[i].1.path@));
            }
        }
    }
}

/// After a push nothing is staged or pending a move, and every tracked
/// path keeps the lock it had.
pub proof fn push_clears_staging(local: Map<Seq<char>, IndexArtifactView>, pairs: Seq<(Seq<char>, Artifact)>)
    ensures
        forall|p: Seq<char>| #[trigger] pushed_entries(local, pairs).dom().contains(p) ==> {
            let e = pushed_entries(local, pairs)[p];
            &&& e.stage == unstaged_word()
            &&& e.staged is None
            &&& e.moved_from is None
            &&& e.locked == (local.dom().contains(p) && local[p].locked)
        },
    decreases pairs.len(),
{
    if pairs.len() > 0 {
        push_clears_staging(local, pairs.drop_last());
    }
}

/// A fetch changes metadata only: every tracked path stays tracked, with
/// its artifact id, its local payload state and what is staged of it.
pub proof fn fetch_keeps_local_work(local: Map<Seq<char>, IndexArtifactView>, pairs: Seq<(Seq<char>, Artifact)>)
    ensures
        forall|p: Seq<char>| #[trigger] local.dom().contains(p) ==> {
            let e = fetched_entries(local, pairs)[p];
            &&& fetched_entries(local, pairs).dom().contains(p)
            &&& e.artifact_id == local[p].artifact_id
            &&& e.local_state == local[p].local_state
            &&& e.stage == local[p].stage
            &&& e.staged == local[p].staged
        },
    decreases pairs.len(),
{
    if pairs.len() > 0 {
        fetch_keeps_local_work(local, pairs.drop_last());
    }
}

/// Moving a tracked artifact to an untracked path keeps the artifact, and
/// with it the server's lock: the new path carries the same id, revision
/// and lock, the old path is no longer tracked, and nothing else changes.
pub proof fn move_keeps_artifact(before: Map<Seq<char>, IndexArtifactView>, src: Seq<char>, dst: Seq<char>)
    requires
        before.dom().contains(src),
        !before.dom().contains(dst),
    ensures
        ({
            let after = before.remove(src).insert(dst, IndexArtifactView { moved_from: Some(src), ..before[src] });
            &&& !after.dom().contains(src)
            &&& after.dom().contains(dst)
            &&& after[dst].artifact_id == before[src].artifact_id
            &&& after[dst].revision == before[src].revision
            &&& after[dst].locked == before[src].locked
            &&& after[dst].lock_owner == before[src].lock_owner
            &&& forall|k: Seq<char>| k != src && k != dst ==> (#[trigger] after.dom().contains(k)
                == before.dom().contains(k) && (before.dom().contains(k) ==> after[k] == before[k]))
        }),
{
}

// ---------------------------------------------------------------------
// Accounts
// ---------------------------------------------------------------------

/// A password is accepted at login against the hash stored for it when the
/// account was made (`hash_new_password` gives such hashes), and no other
/// password the hash rejects is.
pub proof fn stored_password_logs_in(u: User, password: Seq<char>, other: Seq<char>)
    requires
        bcrypt_verdict(password, u.password_hash@) == Some(true),
        bcrypt_verdict(other, u.password_hash@) == Some(false),
    ensures
        login_outcome(Some(u), password) == Ok::<(), Status>(()),
        login_outcome(Some(u), other) == Err::<(), Status>(Status::Unauthorized),
        login_outcome(None, password) == Err::<(), Status>(Status::Unauthorized),
{
}

// ---------------------------------------------------------------------
// What the operations give, over all inputs
// ---------------------------------------------------------------------

/// File `i` of a push is in order: no earlier file names its artifact; the
/// commit has a change for it and the payload unpacks (gunzipped when the
/// push flags it compressed) to content with that change's hash; a known
/// artifact is locked by the commit's author and the change is based on its
/// latest revision; a new artifact's path is held by no stored artifact and
/// by no earlier new file.
pub open spec fn file_in_order(
    m: ArtifactMap,
    meta: PushMetadata,
    files: Seq<(Seq<char>, Seq<u8>)>,
    i: int,
) -> bool {
    let id = files[i].0;
    let paths = meta.artifact_paths.vmap();
    &&& forall|j: int| 0 <= j < i ==> #[trigger] files[j].0 != id
    &&& change_for(meta.commit.artifacts@, id) matches Some(c) && (unpacked_of(
        files[i].1,
        pushed_compressed(meta.artifact_compression@, id),
    ) matches Some(d) && content_hash_of(d) == c.hash@) && (m.dom().contains(id) ==> m[id].locked_by
        == Some(meta.commit.author@) && c.revision_base == m[id].latest)
    &&& !m.dom().contains(id) ==> !path_taken(m, pushed_path(paths, id)) && forall|j: int|
        0 <= j < i && !m.dom().contains(#[trigger] files[j].0) ==> pushed_path(paths, files[j].0)
            != pushed_path(paths, id)
}

/// The server takes every push whose files are all in order: a compressed
/// upload that unpacks to the committed content is accepted like a plain
/// one, and nothing beyond the lock, the base revision, the content hash
/// and the path is asked of a file.
pub proof fn push_in_order_is_accepted(m: ArtifactMap, meta: PushMetadata, files: Seq<(Seq<char>, Seq<u8>)>)
    requires
        forall|i: int| 0 <= i < files.len() ==> #[trigger] file_in_order(m, meta, files, i),
    ensures
        push_verdict(m, meta, files) == Ok::<(), Status>(()),
    decreases files.len(),
{
    if files.len() > 0 {
        let g = files.drop_last();
        assert forall|i: int| 0 <= i < g.len() implies #[trigger] file_in_order(m, meta, g, i) by {
            assert(file_in_order(m, meta, files, i));
            assert forall|j: int| 0 <= j <= i implies g[j] == files[j] by {}
            assert(g[i] == files[i]);
        }
        push_in_order_is_accepted(m, meta, g);
        let n = files.len() - 1;
        assert(file_in_order(m, meta, files, n));
        let id = files[n].0;
        assert(files.last() == files[n]);
        assert(!crate::server::named_earlier(g, id)) by {
            assert forall|j: int| 0 <= j < g.len() implies g[j].0 != id by {
                assert(g[j] == files[j]);
                assert(files[j].0 != id);
            }
        }
        if !m.dom().contains(id) {
            let paths = meta.artifact_paths.vmap();
            assert(!crate::server::claimed_earlier(m, paths, g, pushed_path(paths, id))) by {
                assert forall|j: int|
                    0 <= j < g.len() && !m.dom().contains(g[j].0) implies pushed_path(paths, g[j].0)
                    != pushed_path(paths, id) by {
                    assert(g[j] == files[j]);
                    assert(!m.dom().contains(files[j].0));
                }
            }
        }
    }
}

/// A pull of a path with no revision or commit fetches, for every artifact
/// the server lists, the server's latest revision of it, whatever the local
/// index records.
pub proof fn standard_pull_takes_server_latest(
    q: Seq<char>,
    remote: Seq<(Seq<char>, Artifact)>,
    local: Seq<(Seq<char>, crate::protocol::IndexArtifact)>,
    rm: Map<Seq<char>, ArtifactView>,
    lm: Map<Seq<char>, IndexArtifactView>,
    commits: Map<Seq<char>, crate::protocol::Commit>,
    ts: Seq<(Seq<char>, Seq<char>, u32)>,
    i: int,
)
    requires
        q != "*"@,
        crate::sync::pull_targets_of(
            q,
            None,
            None,
            crate::sync::pull_candidates_of(q, remote, local, rm, lm),
            commits,
        ) == Ok::<Seq<(Seq<char>, Seq<char>, u32)>, Seq<char>>(ts),
        0 <= i < ts.len(),
        rm.dom().contains(ts[i].1),
    ensures
        ts[i].2 == rm[ts[i].1].latest,
{
    let c = crate::sync::pull_candidates_of(q, remote, local, rm, lm);
    assert(ts[i].1 == c[i].1 && ts[i].2 == c[i].2);
    let r = remote.filter(crate::sync::remote_match(q));
    if r.len() > 0 {
        assert(c[i] == crate::sync::remote_candidate(rm, lm)(r[i]));
    } else {
        let l = local.filter(crate::sync::local_match(q));
        assert(c[i] == crate::sync::local_candidate(rm, lm)(l[i]));
    }
}

/// After a fetch, the path of every server artifact (the last one listed
/// at that path) is tracked at that artifact's latest revision, with its
/// lock state.
pub proof fn fetch_tracks_server_latest(
    local: Map<Seq<char>, IndexArtifactView>,
    pairs: Seq<(Seq<char>, Artifact)>,
    k: int,
)
    requires
        0 <= k < pairs.len(),
        forall|j: int| k < j < pairs.len() ==> #[trigger] pairs[j].1.path@ != pairs[k].1.path@,
    ensures
        fetched_entries(local, pairs).dom().contains(pairs[k].1.path@),
        fetched_entries(local, pairs)[pairs[k].1.path@].revision == pairs[k].1.latest,
        fetched_entries(local, pairs)[pairs[k].1.path@].locked == (pairs[k].1.locked_by is Some),
    decreases pairs.len(),
{
    if k < pairs.len() - 1 {
        let g = pairs.drop_last();
        assert forall|j: int| k < j < g.len() implies #[trigger] g[j].1.path@ != g[k].1.path@ by {
            assert(g[j] == pairs[j]);
            assert(pairs[j].1.path@ != pairs[k].1.path@);
        }
        fetch_tracks_server_latest(local, g, k);
        assert(g[k] == pairs[k]);
        assert(pairs.last() == pairs[pairs.len() - 1]);
    }
}

/// A clone URL names its project and server: the project is the part after
/// the last `/` (with trailing slashes dropped) and holds no `/`; an
/// `ssh://` URL talks to the default server, any other URL to the server
/// before that `/`, so that server, `/` and project give the URL back. A
/// URL without `/` names nothing.
pub proof fn clone_url_names_its_server(url: Seq<char>)
    ensures
        ({
            let t = crate::text::trim_end_char(url, '/');
            let has_slash = exists|i: int| 0 <= i < t.len() && t[i] == '/';
            &&& !has_slash ==> clone_target(url) is None
            &&& has_slash ==> (clone_target(url) matches Some((p, b)) && !p.contains('/') && (
            crate::text::starts_with(t, "ssh://"@) ==> b == crate::sync::default_server()) && (
            !crate::text::starts_with(t, "ssh://"@) ==> b + seq!['/'] + p == t))
        }),
{
    let t = crate::text::trim_end_char(url, '/');
    crate::text::lemma_last_index_of_char(t, '/');
    let s = crate::text::last_index_of_char(t, '/');
    if exists|i: int| 0 <= i < t.len() && t[i] == '/' {
        let w = choose|i: int| 0 <= i < t.len() && t[i] == '/';
        assert(s >= 0) by {
            if s < 0 {
                assert(t[w] != '/');
            }
        }
        let p = t.skip(s + 1);
        assert(!p.contains('/')) by {
            assert forall|k: int| 0 <= k < p.len() implies p[k] != '/' by {
                assert(p[k] == t[s + 1 + k]);
            }
        }
        assert(t.take(s) + seq!['/'] + p =~= t);
    } else {
        if s >= 0 {
            assert(t[s] == '/');
        }
    }
}

/// After a checkout, each path the commit changes is tracked as a
/// placeholder of the artifact that the commit's last change to the path
/// names, at that change's base revision.
pub proof fn checkout_tracks_commit_artifacts(changes: Seq<CommitArtifact>, k: int)
    requires
        0 <= k < changes.len(),
        forall|j: int| k < j < changes.len() ==> #[trigger] changes[j].path@ != changes[k].path@,
    ensures
        commit_entries(changes).dom().contains(changes[k].path@),
        commit_entries(changes)[changes[k].path@].artifact_id == changes[k].artifact_id@,
        commit_entries(changes)[changes[k].path@].revision == changes[k].revision_base,
        commit_entries(changes)[changes[k].path@].local_state == placeholder_word(),
        commit_entries(changes)[changes[k].path@].stage == unstaged_word(),
        !commit_entries(changes)[changes[k].path@].locked,
        commit_entries(changes)[changes[k].path@].lock_owner is None,
    decreases changes.len(),
{
    if k < changes.len() - 1 {
        let g = changes.drop_last();
        assert forall|j: int| k < j < g.len() implies #[trigger] g[j].path@ != g[k].path@ by {
            assert(g[j] == changes[j]);
            assert(changes[j].path@ != changes[k].path@);
        }
        checkout_tracks_commit_artifacts(g, k);
        assert(g[k] == changes[k]);
        assert(changes.last() == changes[changes.len() - 1]);
    } else {
        assert(changes.last() == changes[k]);
    }
}

/// After a checkout exactly the paths the commit changes are tracked.
pub proof fn checkout_tracks_only_commit_paths(changes: Seq<CommitArtifact>, p: Seq<char>)
    ensures
        commit_entries(changes).dom().contains(p) <==> exists|j: int|
            0 <= j < changes.len() && #[trigger] changes[j].path@ == p,
    decreases changes.len(),
{
    if changes.len() > 0 {
        let g = changes.drop_last();
        checkout_tracks_only_commit_paths(g, p);
        if exists|j: int| 0 <= j < g.len() && #[trigger] g[j].path@ == p {
            let j = choose|j: int| 0 <= j < g.len() && #[trigger] g[j].path@ == p;
            assert(changes[j] == g[j]);
        }
        if exists|j: int| 0 <= j < changes.len() && #[trigger] changes[j].path@ == p {
            let j = choose|j: int| 0 <= j < changes.len() && #[trigger] changes[j].path@ == p;
            if j < g.len() {
                assert(g[j] == changes[j]);
            } else {
                assert(changes.last() == changes[j]);
            }
        }
    }
}

/// A fetch leaves the entry of every path the server does not list as it
/// was, and tracks a path new to the index as a placeholder of the server
/// artifact listed last at it, under that artifact's id.
pub proof fn fetch_keeps_unlisted_and_adds_new(
    local: Map<Seq<char>, IndexArtifactView>,
    pairs: Seq<(Seq<char>, Artifact)>,
    p: Seq<char>,
    k: int,
)
    ensures
        (forall|j: int| 0 <= j < pairs.len() ==> #[trigger] pairs[j].1.path@ != p) ==> (fetched_entries(
            local,
            pairs,
        ).dom().contains(p) == local.dom().contains(p) && (local.dom().contains(p) ==> fetched_entries(
            local,
            pairs,
        )[p] == local[p])),
        (0 <= k < pairs.len() && pairs[k].1.path@ == p && !local.dom().contains(p) && (forall|j: int|
            0 <= j < pairs.len() && j != k ==> #[trigger] pairs[j].1.path@ != p)) ==> (fetched_entries(
            local,
            pairs,
        )[p].artifact_id == pairs[k].0 && fetched_entries(local, pairs)[p].local_state == placeholder_word()
            && fetched_entries(local, pairs)[p].revision == pairs[k].1.latest),
    decreases pairs.len(),
{
    if pairs.len() > 0 {
        let g = pairs.drop_last();
        fetch_keeps_unlisted_and_adds_new(local, g, p, k);
        assert(pairs.last() == pairs[pairs.len() - 1]);
        if forall|j: int| 0 <= j < pairs.len() ==> #[trigger] pairs[j].1.path@ != p {
            assert forall|j: int| 0 <= j < g.len() implies #[trigger] g[j].1.path@ != p by {
                assert(g[j] == pairs[j]);
            }
        }
        if 0 <= k < pairs.len() && pairs[k].1.path@ == p && !local.dom().contains(p) && (forall|j: int|
            0 <= j < pairs.len() && j != k ==> #[trigger] pairs[j].1.path@ != p) {
            if k == pairs.len() - 1 {
                assert forall|j: int| 0 <= j < g.len() implies #[trigger] g[j].1.path@ != p by {
                    assert(g[j] == pairs[j]);
                }
                fetch_keeps_unlisted_and_adds_new(local, g, p, -1);
            } else {
                assert(g[k] == pairs[k]);
                assert forall|j: int| 0 <= j < g.len() && j != k implies #[trigger] g[j].1.path@ != p by {
                    assert(g[j] == pairs[j]);
                }
            }
        }
    }
}

/// A pull at a revision number, with no commit, fetches every target at
/// that revision; a plain pull of an artifact the server does not list
/// takes the revision the index records for its path.
pub proof fn pinned_and_local_pull_revisions(
    q: Seq<char>,
    rev: Option<u32>,
    remote: Seq<(Seq<char>, Artifact)>,
    local: Seq<(Seq<char>, crate::protocol::IndexArtifact)>,
    rm: Map<Seq<char>, ArtifactView>,
    lm: Map<Seq<char>, IndexArtifactView>,
    commits: Map<Seq<char>, crate::protocol::Commit>,
    ts: Seq<(Seq<char>, Seq<char>, u32)>,
    i: int,
)
    requires
        q != "*"@,
        crate::sync::pull_targets_of(
            q,
            rev,
            None,
            crate::sync::pull_candidates_of(q, remote, local, rm, lm),
            commits,
        ) == Ok::<Seq<(Seq<char>, Seq<char>, u32)>, Seq<char>>(ts),
        0 <= i < ts.len(),
    ensures
        rev matches Some(r) ==> ts[i].2 == r,
        rev is None && !rm.dom().contains(ts[i].1) && lm.dom().contains(ts[i].0) ==> ts[i].2
            == lm[ts[i].0].revision,
        rev is None && !rm.dom().contains(ts[i].1) && !lm.dom().contains(ts[i].0) ==> ts[i].2 == 0,
{
    let c = crate::sync::pull_candidates_of(q, remote, local, rm, lm);
    assert(ts[i].0 == c[i].0 && ts[i].1 == c[i].1);
    let r = remote.filter(crate::sync::remote_match(q));
    if r.len() > 0 {
        assert(c[i] == crate::sync::remote_candidate(rm, lm)(r[i]));
    } else {
        let l = local.filter(crate::sync::local_match(q));
        assert(c[i] == crate::sync::local_candidate(rm, lm)(l[i]));
    }
}

} // verus!
