//! The client's working-directory rules: staging, moving, committing,
//! switching branches, stashing and the status report.
use vstd::prelude::*;
use crate::codec::{content_hash, content_hash_of, fresh_uuid_text, is_uuid_text};
use crate::protocol::{
    placeholder_entry, placeholder_view, placeholder_word, ready_text, ready_word, staged_text,
    staged_word, Commit, CommitArtifact, CommitArtifactView, Index, IndexArtifact,
    IndexArtifactView, StagedInfo,
};
use crate::server::{commit_id, commit_id_of};
use crate::table::StrMap;
use crate::text::{concat, decimal, decimal_text, extension, extension_of, owned, same_text};

verus! {

// ---------------------------------------------------------------------
// Messages
// ---------------------------------------------------------------------

/// `a + b + c` as a string.
fn concat3(a: &str, b: &str, c: &str) -> (r: String)
    ensures
        r@ == a@ + b@ + c@,
{
    let ab = concat(a, b);
    concat(ab.as_str(), c)
}

/// `a + b + c + d + e` as a string.
fn concat5(a: &str, b: &str, c: &str, d: &str, e: &str) -> (r: String)
    ensures
        r@ == a@ + b@ + c@ + d@ + e@,
{
    let abc = concat3(a, b, c);
    concat3(abc.as_str(), d, e)
}

/// The error of staging a file one has not locked.
pub open spec fn read_only_message(path: Seq<char>) -> Seq<char> {
    "ERROR: File '"@ + path + "' is read-only. Use 'rig lock' first."@
}

/// The error of staging a file whose payload was never pulled.
pub open spec fn not_downloaded_message(path: Seq<char>) -> Seq<char> {
    "ERROR: File '"@ + path + "' not downloaded. Run 'rig pull' first."@
}

/// The error of moving an untracked path.
pub open spec fn not_found_message(path: Seq<char>) -> Seq<char> {
    "Artifact '"@ + path + "' not found"@
}

/// The error of moving onto a tracked path.
pub open spec fn collision_message(dst: Seq<char>, id: Seq<char>) -> Seq<char> {
    "Error: destination path '"@ + dst + "' is already tracked as artifact ["@ + id
        + "]. Use 'rig lock' and remove or rename the destination artifact first."@
}

/// The error of switching branches with work not yet pushed.
pub open spec fn dirty_message() -> Seq<char> {
    "ERROR: Uncommitted changes. Commit or stash first."@
}

/// The error of committing with nothing staged.
pub open spec fn nothing_to_commit_message() -> Seq<char> {
    "ERROR: Nothing to commit. Stage changes with 'rig add' first."@
}

/// The error of committing a staged file that is gone.
pub open spec fn staged_missing_message() -> Seq<char> {
    "ERROR: Staged file not found. File may have been deleted."@
}

/// The error of a file that changed while it was hashed.
pub open spec fn changed_during_commit_message() -> Seq<char> {
    "ERROR: File changed during commit. Retry."@
}

// ---------------------------------------------------------------------
// Staging
// ---------------------------------------------------------------------

/// The extensions of source code, which belongs in git rather than Rig.
pub open spec fn source_extensions() -> Seq<Seq<char>> {
    seq![
        "rs"@, "py"@, "c"@, "cpp"@, "h"@, "hpp"@, "js"@, "ts"@, "go"@, "java"@, "rb"@, "sh"@,
        "lua"@,
    ]
}

/// Whether staging `path` deserves the warning that source code belongs
/// in a git module.
pub fn is_source_code(path: &str) -> (b: bool)
    ensures
        b == (extension_of(path@) matches Some(e) && source_extensions().contains(e)),
{
    let e = match extension(path) {
        None => return false,
        Some(e) => e,
    };
    let names = ["rs", "py", "c", "cpp", "h", "hpp", "js", "ts", "go", "java", "rb", "sh", "lua"];
    let ghost exts = source_extensions();
    assert(exts.len() == 13);
    let mut i: usize = 0;
    while i < 13
        invariant
            i <= 13,
            exts == source_extensions(),
            extension_of(path@) == Some(e@),
            forall|j: int| 0 <= j < 13 ==> #[trigger] names@[j]@ == exts[j],
            forall|j: int| 0 <= j < i ==> exts[j] != e@,
        decreases 13 - i,
    {
        if same_text(e.as_str(), names[i]) {
            assert(exts[i as int] == e@);
            return true;
        }
        i += 1;
    }
    false
}

/// The entry of a staged file, as recorded by `rig add`.
pub open spec fn staged_view(a: IndexArtifactView, info: StagedInfo) -> IndexArtifactView {
    IndexArtifactView { stage: staged_word(), staged: Some(info), ..a }
}

/// The entry of a new file when it is first staged: a fresh artifact id,
/// no server revision yet, held by its creator.
pub open spec fn new_staged_entry(a: IndexArtifactView, info: StagedInfo) -> bool {
    &&& is_uuid_text(a.artifact_id)
    &&& a.revision == 0
    &&& a.local_state == ready_word()
    &&& a.stage == staged_word()
    &&& a.locked
    &&& a.lock_owner is None
    &&& a.lock_generation is None
    &&& a.staged == Some(info)
    &&& a.moved_from is None
}

/// Stages the file at `path` with its size and modification time. A
/// tracked file must be locked and pulled; a new file gets a fresh
/// artifact id.
pub fn stage_path(index: &mut Index, path: &str, mtime: u64, size: u64) -> (r: Result<(), String>)
    ensures
        ({
            let before = old(index).artifacts.vmap();
            let after = final(index).artifacts.vmap();
            let info = StagedInfo { mtime, size };
            if before.dom().contains(path@) {
                let a = before[path@];
                if !a.locked {
                    r matches Err(m) && m@ == read_only_message(path@) && after == before
                } else if a.local_state == placeholder_word() {
                    r matches Err(m) && m@ == not_downloaded_message(path@) && after == before
                } else {
                    r is Ok && after == before.insert(path@, staged_view(a, info))
                }
            } else {
                &&& r is Ok
                &&& after.dom() == before.dom().insert(path@)
                &&& forall|k: Seq<char>| k != path@ && #[trigger] before.dom().contains(k) ==> after[k] == before[k]
                &&& new_staged_entry(after[path@], info)
            }
        }),
        final(index).version == old(index).version,
        final(index).branch == old(index).branch,
        final(index).head == old(index).head,
        final(index).git_modules == old(index).git_modules,
{
    let info = StagedInfo { mtime, size };
    match index.artifacts.find(path) {
        Some(i) => {
            proof {
                crate::table::lemma_last_index_of(index.artifacts.pairs(), path@);
            }
            let a = index.artifacts.value_at(i);
            if !a.locked {
                return Err(concat3("ERROR: File '", path, "' is read-only. Use 'rig lock' first."));
            }
            if same_text(a.local_state.as_str(), "placeholder") {
                return Err(concat3("ERROR: File '", path, "' not downloaded. Run 'rig pull' first."));
            }
            let mut b = a.clone();
            b.stage = staged_text();
            b.staged = Some(info);
            let ghost bv = b@;
            index.artifacts.replace_at(i, b);
            assert(index.artifacts.vmap() =~= old(index).artifacts.vmap().insert(path@, bv));
            Ok(())
        },
        None => {
            let entry = IndexArtifact {
                artifact_id: fresh_uuid_text(),
                revision: 0,
                local_state: ready_text(),
                stage: staged_text(),
                locked: true,
                lock_owner: None,
                lock_generation: None,
                staged: Some(info),
                moved_from: None,
            };
            let ghost ev = entry@;
            index.artifacts.insert(owned(path), entry);
            assert(index.artifacts.vmap() =~= old(index).artifacts.vmap().insert(path@, ev));
            Ok(())
        },
    }
}

// ---------------------------------------------------------------------
// Moving
// ---------------------------------------------------------------------

/// Moves the tracked artifact at `src` to `dst` in the index. The artifact
/// keeps its id, and so its lock; `dst` must not be tracked already.
pub fn move_artifact(index: &mut Index, src: &str, dst: &str) -> (r: Result<(), String>)
    ensures
        ({
            let before = old(index).artifacts.vmap();
            let after = final(index).artifacts.vmap();
            if !before.dom().contains(src@) {
                r matches Err(m) && m@ == not_found_message(src@) && after == before
            } else if before.dom().contains(dst@) {
                r matches Err(m) && m@ == collision_message(dst@, before[dst@].artifact_id)
                    && after == before
            } else {
                r is Ok && after == before.remove(src@).insert(
                    dst@,
                    IndexArtifactView { moved_from: Some(src@), ..before[src@] },
                )
            }
        }),
        final(index).version == old(index).version,
        final(index).branch == old(index).branch,
        final(index).head == old(index).head,
        final(index).git_modules == old(index).git_modules,
{
    if !index.artifacts.contains_key(src) {
        return Err(concat3("Artifact '", src, "' not found"));
    }
    match index.artifacts.get(dst) {
        Some(existing) => {
            let id = existing.artifact_id.clone();
            return Err(
                concat5(
                    "Error: destination path '",
                    dst,
                    "' is already tracked as artifact [",
                    id.as_str(),
                    "]. Use 'rig lock' and remove or rename the destination artifact first.",
                ),
            );
        },
        None => {},
    }
    let mut a = index.artifacts.remove(src).unwrap();
    a.moved_from = Some(owned(src));
    let ghost av = a@;
    index.artifacts.insert(owned(dst), a);
    assert(index.artifacts.vmap() =~= old(index).artifacts.vmap().remove(src@).insert(dst@, av));
    Ok(())
}

/// The tracked path `query` names, if the index tracks it.
pub fn resolve_artifact_id(index: &Index, query: &str) -> (r: Option<String>)
    ensures
        match r {
            Some(k) => k@ == query@ && index.artifacts@.dom().contains(query@),
            None => !index.artifacts@.dom().contains(query@),
        },
{
    if index.artifacts.contains_key(query) {
        Some(owned(query))
    } else {
        None
    }
}

// ---------------------------------------------------------------------
// Branches and stashes
// ---------------------------------------------------------------------

/// Work that a branch switch would lose: a staged file or an unpushed head.
pub open spec fn has_pending_work(index_artifacts: Seq<(Seq<char>, IndexArtifact)>, head: Option<String>) -> bool {
    (exists|i: int| 0 <= i < index_artifacts.len() && #[trigger] index_artifacts[i].1.stage@ == staged_word())
        || head is Some
}

/// Refuses a branch switch while there is pending work.
pub fn checkout_guard(index: &Index) -> (r: Result<(), String>)
    ensures
        match r {
            Ok(()) => !has_pending_work(index.artifacts.pairs(), index.head),
            Err(m) => has_pending_work(index.artifacts.pairs(), index.head) && m@ == dirty_message(),
        },
{
    let mut i: usize = 0;
    let mut staged = false;
    while i < index.artifacts.len()
        invariant
            i <= index.artifacts.pairs().len(),
            staged == exists|j: int|
                0 <= j < i && #[trigger] index.artifacts.pairs()[j].1.stage@ == staged_word(),
        decreases index.artifacts.pairs().len() - i,
    {
        if same_text(index.artifacts.value_at(i).stage.as_str(), "staged") {
            assert(index.artifacts.pairs()[i as int].1.stage@ == staged_word());
            staged = true;
        }
        i += 1;
    }
    if staged || index.head.is_some() {
        Err(String::from_str("ERROR: Uncommitted changes. Commit or stash first."))
    } else {
        Ok(())
    }
}

/// The refusal of an unlock while the artifact at `path` has commits that
/// were not pushed.
pub open spec fn unpushed_unlock_message(path: Seq<char>) -> Seq<char> {
    "ERROR: Artifact '"@ + path + "' has unpushed commits. Push before unlocking."@
}

/// Whether the artifact tracked at `path` is part of a commit that has not
/// been pushed: the workspace has an unpushed head and the artifact is
/// staged in it.
pub open spec fn has_unpushed_commit(entries: Map<Seq<char>, IndexArtifactView>, head: Option<String>, path: Seq<char>) -> bool {
    &&& head is Some
    &&& entries.dom().contains(path)
    &&& entries[path].stage == staged_word()
}

/// Refuses to release the lock on the artifact at `path` while its changes
/// sit in a commit that was not pushed: releasing it would let another user
/// edit a file whose next revision is still on this machine.
pub fn unlock_guard(index: &Index, path: &str) -> (r: Result<(), String>)
    ensures
        match r {
            Ok(()) => !has_unpushed_commit(index.artifacts.vmap(), index.head, path@),
            Err(m) => has_unpushed_commit(index.artifacts.vmap(), index.head, path@) && m@
                == unpushed_unlock_message(path@),
        },
{
    if index.head.is_none() {
        return Ok(());
    }
    match index.artifacts.get(path) {
        Some(e) => {
            if same_text(e.stage.as_str(), "staged") {
                let a = concat("ERROR: Artifact '", path);
                Err(concat(a.as_str(), "' has unpushed commits. Push before unlocking."))
            } else {
                proof {
                    reveal_strlit("staged");
                }
                Ok(())
            }
        },
        None => Ok(()),
    }
}

/// The refusal of an unlock while a shelved stash holds changes of the
/// artifact at `path`.
pub open spec fn stashed_unlock_message(path: Seq<char>) -> Seq<char> {
    "ERROR: Artifact '"@ + path + "' has stashed modifications. Restore the stash before unlocking."@
}

/// Whether one of the shelved stash commits changes the artifact at `path`.
pub open spec fn has_stashed_change(shelved: Seq<Commit>, path: Seq<char>) -> bool {
    exists|i: int, j: int|
        #![trigger shelved[i].artifacts@[j]]
        0 <= i < shelved.len() && 0 <= j < shelved[i].artifacts@.len() && shelved[i].artifacts@[j].path@
            == path
}

/// Refuses to release the lock on the artifact at `path` while a stash
/// commit shelved from this workspace (`shelved`, the commits the user's
/// shelf branches point at) holds changes of it: restoring the stash later
/// would clash with another user's edits.
pub fn stash_unlock_guard(shelved: &[Commit], path: &str) -> (r: Result<(), String>)
    ensures
        match r {
            Ok(()) => !has_stashed_change(shelved@, path@),
            Err(m) => has_stashed_change(shelved@, path@) && m@ == stashed_unlock_message(path@),
        },
{
    let mut i: usize = 0;
    while i < shelved.len()
        invariant
            i <= shelved@.len(),
            forall|a: int, b: int|
                #![trigger shelved@[a].artifacts@[b]]
                0 <= a < i && 0 <= b < shelved@[a].artifacts@.len() ==> shelved@[a].artifacts@[b].path@ != path@,
        decreases shelved@.len() - i,
    {
        let changes = &shelved[i].artifacts;
        let mut j: usize = 0;
        while j < changes.len()
            invariant
                i < shelved@.len(),
                changes@ == shelved@[i as int].artifacts@,
                j <= changes@.len(),
                forall|a: int, b: int|
                    #![trigger shelved@[a].artifacts@[b]]
                    0 <= a < i && 0 <= b < shelved@[a].artifacts@.len() ==> shelved@[a].artifacts@[b].path@
                        != path@,
                forall|b: int| 0 <= b < j ==> #[trigger] changes@[b].path@ != path@,
            decreases changes@.len() - j,
        {
            if same_text(changes[j].path.as_str(), path) {
                assert(shelved@[i as int].artifacts@[j as int].path@ == path@);
                let a = concat("ERROR: Artifact '", path);
                return Err(concat(a.as_str(), "' has stashed modifications. Restore the stash before unlocking."));
            }
            j += 1;
        }
        assert forall|a: int, b: int|
            #![trigger shelved@[a].artifacts@[b]]
            0 <= a < i + 1 && 0 <= b < shelved@[a].artifacts@.len() implies shelved@[a].artifacts@[b].path@
                != path@ by {
            if a == i {
                assert(changes@[b] == shelved@[a].artifacts@[b]);
            }
        }
        i += 1;
    }
    Ok(())
}

/// The entries a commit's changes describe, keyed by path in change order;
/// a later change to the same path replaces an earlier one.
pub open spec fn commit_entries(changes: Seq<CommitArtifact>) -> Map<Seq<char>, IndexArtifactView>
    decreases changes.len(),
{
    if changes.len() == 0 {
        Map::empty()
    } else {
        commit_entries(changes.drop_last()).insert(
            changes.last().path@,
            placeholder_view(changes.last().artifact_id@, changes.last().revision_base),
        )
    }
}

/// Resets the tracked artifacts to those of `commit`, all as unlocked
/// placeholders at the commit's revisions.
pub fn reset_to_commit(index: &mut Index, commit: &Commit)
    ensures
        final(index).artifacts.vmap() == commit_entries(commit.artifacts@),
        final(index).version == old(index).version,
        final(index).branch == old(index).branch,
        final(index).head == old(index).head,
        final(index).git_modules == old(index).git_modules,
{
    let mut fresh: StrMap<IndexArtifact> = StrMap::new();
    let mut i: usize = 0;
    assert(fresh.vmap() =~= commit_entries(commit.artifacts@.take(0)));
    while i < commit.artifacts.len()
        invariant
            i <= commit.artifacts@.len(),
            fresh.vmap() == commit_entries(commit.artifacts@.take(i as int)),
        decreases commit.artifacts@.len() - i,
    {
        let c = &commit.artifacts[i];
        let e = placeholder_entry(c.artifact_id.clone(), c.revision_base);
        let ghost ev = e@;
        fresh.insert(c.path.clone(), e);
        assert(commit.artifacts@.take(i + 1).drop_last() =~= commit.artifacts@.take(i as int));
        assert(fresh.vmap() =~= commit_entries(commit.artifacts@.take(i + 1)));
        i += 1;
    }
    assert(commit.artifacts@.take(commit.artifacts@.len() as int) =~= commit.artifacts@);
    index.artifacts = fresh;
}

/// Whether stashing should stage a workspace file: untracked files, files
/// never pushed, and pushed files one has made writable.
pub fn needs_stash(entry: Option<&IndexArtifact>, writable: bool) -> (b: bool)
    ensures
        b == match entry {
            None => true,
            Some(a) => a.revision == 0 || writable,
        },
{
    match entry {
        None => true,
        Some(a) => a.revision == 0 || writable,
    }
}

/// The branch a stash is shelved on: `refs/heads/shelves/<user>/<time>`.
pub fn shelf_ref(user: &str, timestamp: u64) -> (r: String)
    ensures
        r@ == "refs/heads/shelves/"@ + user@ + "/"@ + decimal(timestamp as nat),
{
    let t = decimal_text(timestamp);
    let a = concat3("refs/heads/shelves/", user, "/");
    concat(a.as_str(), t.as_str())
}

/// The message of a stash commit: `Stash by <user> at <time>`.
pub fn stash_message(user: &str, timestamp: u64) -> (r: String)
    ensures
        r@ == "Stash by "@ + user@ + " at "@ + decimal(timestamp as nat),
{
    let t = decimal_text(timestamp);
    let a = concat3("Stash by ", user, " at ");
    concat(a.as_str(), t.as_str())
}

// ---------------------------------------------------------------------
// Status
// ---------------------------------------------------------------------

/// Whether the walk over the working directory passes over an entry: the
/// `.rig` directory, hidden entries and `target`.
pub open spec fn skipped_entry(name: Seq<char>) -> bool {
    name == ".rig"@ || (name.len() > 0 && name[0] == '.') || name == "target"@
}

/// Whether the working-directory walk skips the entry called `name`.
pub fn skips_entry(name: &str) -> (b: bool)
    ensures
        b == skipped_entry(name@),
{
    let cs = crate::text::chars_of(name);
    same_text(name, ".rig") || (cs.len() > 0 && cs[0] == '.') || same_text(name, "target")
}

/// What `rig status` reports.
pub struct StatusReport {
    pub staged: Vec<String>,
    pub modified: Vec<String>,
    pub untracked: Vec<String>,
    pub missing: Vec<String>,
    pub unpushed: bool,
}

/// The class a workspace file falls in: staged, modified (writable but not
/// staged), untracked, or none.
#[derive(Clone, Copy, Debug, PartialEq, Eq, Structural)]
pub enum FileClass {
    Staged,
    Modified,
    Untracked,
    Clean,
}

/// The class of workspace file `path`, writable or not.
pub open spec fn file_class(index: Map<Seq<char>, IndexArtifactView>, path: Seq<char>, writable: bool) -> FileClass {
    if !index.dom().contains(path) {
        FileClass::Untracked
    } else if index[path].stage == staged_word() {
        FileClass::Staged
    } else if writable {
        FileClass::Modified
    } else {
        FileClass::Clean
    }
}

/// The paths of the files of class `c`, in workspace order.
pub open spec fn paths_of_class(
    index: Map<Seq<char>, IndexArtifactView>,
    files: Seq<(String, bool)>,
    c: FileClass,
) -> Seq<Seq<char>> {
    files.filter(of_class(index, c)).map_values(|f: (String, bool)| f.0@)
}

/// The test that a workspace file is of class `c`.
pub open spec fn of_class(index: Map<Seq<char>, IndexArtifactView>, c: FileClass) -> spec_fn((String, bool)) -> bool {
    |f: (String, bool)| file_class(index, f.0@, f.1) == c
}

/// One more workspace file adds its path to the list of its class alone.
proof fn lemma_class_step(
    index: Map<Seq<char>, IndexArtifactView>,
    files: Seq<(String, bool)>,
    i: int,
    c: FileClass,
)
    requires
        0 <= i < files.len(),
    ensures
        paths_of_class(index, files.take(i + 1), c) == if file_class(index, files[i].0@, files[i].1) == c {
            paths_of_class(index, files.take(i), c).push(files[i].0@)
        } else {
            paths_of_class(index, files.take(i), c)
        },
{
    let p = of_class(index, c);
    assert(files.take(i + 1) =~= files.take(i).push(files[i]));
    files.take(i).lemma_filter_push(files[i], p);
    let kept = files.take(i).filter(p);
    assert(kept.push(files[i]).map_values(|f: (String, bool)| f.0@) =~= kept.map_values(
        |f: (String, bool)| f.0@,
    ).push(files[i].0@));
}

/// The tracked paths whose files are gone, in index order.
pub open spec fn missing_paths(pairs: Seq<(Seq<char>, IndexArtifact)>, exists: Seq<bool>) -> Seq<Seq<char>>
    decreases pairs.len(),
{
    if pairs.len() == 0 {
        Seq::empty()
    } else {
        let prev = missing_paths(pairs.drop_last(), exists.take(pairs.len() - 1));
        if exists[pairs.len() - 1] {
            prev
        } else {
            prev.push(pairs.last().0)
        }
    }
}

fn class_of(index: &Index, path: &str, writable: bool) -> (c: FileClass)
    ensures
        c == file_class(index.artifacts.vmap(), path@, writable),
{
    match index.artifacts.get(path) {
        None => FileClass::Untracked,
        Some(a) => if same_text(a.stage.as_str(), "staged") {
            FileClass::Staged
        } else if writable {
            FileClass::Modified
        } else {
            FileClass::Clean
        },
    }
}

/// The status report of a workspace. `files` lists the workspace files
/// (relative paths, writable or not); `exists[i]` tells whether the file of
/// the i-th tracked artifact exists.
pub fn status_report(index: &Index, files: &[(String, bool)], exists: &[bool]) -> (r: StatusReport)
    requires
        exists@.len() == index.artifacts.pairs().len(),
    ensures
        r.staged@.map_values(|s: String| s@) == paths_of_class(index.artifacts.vmap(), files@, FileClass::Staged),
        r.modified@.map_values(|s: String| s@) == paths_of_class(
            index.artifacts.vmap(),
            files@,
            FileClass::Modified,
        ),
        r.untracked@.map_values(|s: String| s@) == paths_of_class(
            index.artifacts.vmap(),
            files@,
            FileClass::Untracked,
        ),
        r.missing@.map_values(|s: String| s@) == missing_paths(index.artifacts.pairs(), exists@),
        r.unpushed == index.head is Some,
{
    let ghost m = index.artifacts.vmap();
    let mut staged: Vec<String> = Vec::new();
    let mut modified: Vec<String> = Vec::new();
    let mut untracked: Vec<String> = Vec::new();
    let mut i: usize = 0;
    while i < files.len()
        invariant
            i <= files@.len(),
            m == index.artifacts.vmap(),
            staged@.map_values(|s: String| s@) == paths_of_class(m, files@.take(i as int), FileClass::Staged),
            modified@.map_values(|s: String| s@) == paths_of_class(m, files@.take(i as int), FileClass::Modified),
            untracked@.map_values(|s: String| s@) == paths_of_class(
                m,
                files@.take(i as int),
                FileClass::Untracked,
            ),
        decreases files@.len() - i,
    {
        let f = &files[i];
        let c = class_of(index, f.0.as_str(), f.1);
        proof {
            lemma_class_step(m, files@, i as int, FileClass::Staged);
            lemma_class_step(m, files@, i as int, FileClass::Modified);
            lemma_class_step(m, files@, i as int, FileClass::Untracked);
        }
        let ghost s0 = staged@;
        let ghost m0 = modified@;
        let ghost u0 = untracked@;
        match c {
            FileClass::Staged => staged.push(f.0.clone()),
            FileClass::Modified => modified.push(f.0.clone()),
            FileClass::Untracked => untracked.push(f.0.clone()),
            FileClass::Clean => {},
        }
        assert(staged@.map_values(|s: String| s@) =~= paths_of_class(m, files@.take(i + 1), FileClass::Staged));
        assert(modified@.map_values(|s: String| s@) =~= paths_of_class(m, files@.take(i + 1), FileClass::Modified));
        assert(untracked@.map_values(|s: String| s@) =~= paths_of_class(
            m,
            files@.take(i + 1),
            FileClass::Untracked,
        ));
        i += 1;
    }
    assert(files@.take(files@.len() as int) =~= files@);
    let mut missing: Vec<String> = Vec::new();
    let mut k: usize = 0;
    while k < index.artifacts.len()
        invariant
            k <= index.artifacts.pairs().len(),
            exists@.len() == index.artifacts.pairs().len(),
            missing@.map_values(|s: String| s@) == missing_paths(
                index.artifacts.pairs().take(k as int),
                exists@.take(k as int),
            ),
        decreases index.artifacts.pairs().len() - k,
    {
        assert(index.artifacts.pairs().take(k + 1).drop_last() =~= index.artifacts.pairs().take(k as int));
        assert(exists@.take(k + 1).take(k as int) =~= exists@.take(k as int));
        let ghost mm = missing@;
        if !exists[k] {
            missing.push(index.artifacts.key_at(k).clone());
            assert(missing@.map_values(|s: String| s@) =~= mm.map_values(|s: String| s@).push(
                index.artifacts.pairs()[k as int].0,
            ));
        }
        k += 1;
    }
    assert(index.artifacts.pairs().take(index.artifacts.pairs().len() as int) =~= index.artifacts.pairs());
    assert(exists@.take(exists@.len() as int) =~= exists@);
    StatusReport { staged, modified, untracked, missing, unpushed: index.head.is_some() }
}

// ---------------------------------------------------------------------
// Commits
// ---------------------------------------------------------------------

/// The staged paths, in index order.
pub open spec fn staged_paths_of(pairs: Seq<(Seq<char>, IndexArtifact)>) -> Seq<Seq<char>> {
    pairs.filter(|e: (Seq<char>, IndexArtifact)| e.1.stage@ == staged_word()).map_values(
        |e: (Seq<char>, IndexArtifact)| e.0,
    )
}

/// The staged paths of the index; committing needs at least one.
pub fn staged_paths(index: &Index) -> (r: Result<Vec<String>, String>)
    ensures
        match r {
            Ok(v) => v@.len() > 0 && v@.map_values(|s: String| s@) == staged_paths_of(index.artifacts.pairs()),
            Err(m) => staged_paths_of(index.artifacts.pairs()).len() == 0 && m@ == nothing_to_commit_message(),
        },
{
    let ghost f = |e: (Seq<char>, IndexArtifact)| e.1.stage@ == staged_word();
    let mut v: Vec<String> = Vec::new();
    let mut i: usize = 0;
    while i < index.artifacts.len()
        invariant
            i <= index.artifacts.pairs().len(),
            f == (|e: (Seq<char>, IndexArtifact)| e.1.stage@ == staged_word()),
            v@.map_values(|s: String| s@) == index.artifacts.pairs().take(i as int).filter(f).map_values(
                |e: (Seq<char>, IndexArtifact)| e.0,
            ),
        decreases index.artifacts.pairs().len() - i,
    {
        proof {
            reveal_with_fuel(Seq::filter, 1);
        }
        let ghost pair = index.artifacts.pairs()[i as int];
        assert(index.artifacts.pairs().take(i + 1).drop_last() =~= index.artifacts.pairs().take(i as int));
        assert(index.artifacts.pairs().take(i + 1).last() == pair);
        let ghost v0 = v@;
        if same_text(index.artifacts.value_at(i).stage.as_str(), "staged") {
            v.push(index.artifacts.key_at(i).clone());
            assert(v@.map_values(|s: String| s@) =~= v0.map_values(|s: String| s@).push(pair.0));
        }
        i += 1;
    }
    assert(index.artifacts.pairs().take(index.artifacts.pairs().len() as int) =~= index.artifacts.pairs());
    if v.len() == 0 {
        Err(String::from_str("ERROR: Nothing to commit. Stage changes with 'rig add' first."))
    } else {
        Ok(v)
    }
}

/// The change a commit records for the staged file at `path`, given two
/// successive reads of the file (`None` when it is gone). The two reads
/// must hash alike.
pub fn commit_change(path: &str, entry: &IndexArtifact, first: Option<&[u8]>, second: Option<&[u8]>) -> (r: Result<CommitArtifact, String>)
    ensures
        match (first, second) {
            (Some(a), Some(b)) => if content_hash_of(a@) == content_hash_of(b@) {
                r matches Ok(c) && c@ == (CommitArtifactView {
                    path: path@,
                    artifact_id: entry.artifact_id@,
                    revision_base: entry.revision,
                    hash: content_hash_of(a@),
                    op: "upsert"@,
                })
            } else {
                r matches Err(m) && m@ == changed_during_commit_message()
            },
            _ => r matches Err(m) && m@ == staged_missing_message(),
        },
{
    match (first, second) {
        (Some(a), Some(b)) => {
            let h1 = content_hash(a);
            let h2 = content_hash(b);
            if h1 != h2 {
                return Err(String::from_str("ERROR: File changed during commit. Retry."));
            }
            Ok(
                CommitArtifact {
                    path: owned(path),
                    artifact_id: entry.artifact_id.clone(),
                    revision_base: entry.revision,
                    hash: h1,
                    op: String::from_str("upsert"),
                },
            )
        },
        _ => Err(String::from_str("ERROR: Staged file not found. File may have been deleted.")),
    }
}

/// A new local commit of `changes`, identified by the hash of its parent,
/// message, author and the JSON text of its changes.
pub fn new_commit(
    parent: Option<String>,
    message: &str,
    author: &str,
    changes: Vec<CommitArtifact>,
    changes_json: &[u8],
    timestamp: u64,
) -> (c: Commit)
    ensures
        c.id@ == commit_id_of(parent.deep_view(), message@, author@, changes_json@),
        c.parent == parent,
        c.message@ == message@,
        c.author@ == author@,
        c.artifacts == changes,
        c.timestamp == timestamp,
{
    let id = commit_id(&parent, message, author, changes_json);
    Commit { id, parent, message: owned(message), author: owned(author), artifacts: changes, timestamp }
}

/// Records a new local commit as the unpushed head of the index.
pub fn record_commit(index: &mut Index, id: String)
    ensures
        final(index).head == Some(id),
        final(index).artifacts == old(index).artifacts,
        final(index).git_modules == old(index).git_modules,
        final(index).version == old(index).version,
        final(index).branch == old(index).branch,
{
    index.head = Some(id);
}

/// The author of new commits: the configured user name, else `unknown`.
pub fn commit_author(username: &Option<String>) -> (a: String)
    ensures
        a@ == match username {
            Some(u) => u@,
            None => "unknown"@,
        },
{
    match username {
        Some(u) => u.clone(),
        None => String::from_str("unknown"),
    }
}

} // verus!
