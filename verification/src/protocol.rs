//! The records that the client and the server exchange and store: users,
//! permissions, artifacts with their revisions, commits and the indexes.
use vstd::prelude::*;
use crate::codec::{content_hash, content_hash_of};
use crate::table::StrMap;

verus! {

/// A registered user. The identifier is the UUID's 128-bit value.
pub struct User {
    pub id: u128,
    pub name: String,
    pub email: String,
    pub password_hash: String,
}

/// Access a user has to a project: `read`, `write` or `admin`.
pub struct Permission {
    pub user_id: u128,
    pub project_id: u128,
    pub access: String,
}

/// One stored revision of an artifact and the hash of its payload.
pub struct Revision {
    pub rev: u32,
    pub hash: String,
    pub compressed: bool,
}

impl Clone for Revision {
    fn clone(&self) -> (r: Self)
        ensures
            r == *self,
    {
        Revision { rev: self.rev, hash: self.hash.clone(), compressed: self.compressed }
    }
}

/// A revision as plain values.
pub struct RevisionView {
    pub rev: u32,
    pub hash: Seq<char>,
    pub compressed: bool,
}

impl View for Revision {
    type V = RevisionView;

    open spec fn view(&self) -> RevisionView {
        RevisionView { rev: self.rev, hash: self.hash@, compressed: self.compressed }
    }
}

impl Revision {
    /// Revision `rev` of a payload, with the payload's content hash.
    pub fn new(rev: u32, content: &[u8], compressed: bool) -> (r: Self)
        ensures
            r.rev == rev,
            r.hash@ == content_hash_of(content@),
            r.compressed == compressed,
    {
        Revision { rev, hash: content_hash(content), compressed }
    }
}

/// A server-side artifact: its path, latest revision, lock holder and the
/// history of its revisions.
pub struct Artifact {
    pub id: String,
    pub path: String,
    pub latest: u32,
    pub locked_by: Option<String>,
    pub revisions: Vec<Revision>,
    pub moved_from: Option<String>,
}

impl Clone for Artifact {
    fn clone(&self) -> (r: Self)
        ensures
            r@ == self@,
    {
        let revisions = self.revisions.clone();
        assert(revisions@ =~= self.revisions@);
        Artifact {
            id: self.id.clone(),
            path: self.path.clone(),
            latest: self.latest,
            locked_by: self.locked_by.clone(),
            revisions,
            moved_from: self.moved_from.clone(),
        }
    }
}

/// An artifact as plain values.
pub struct ArtifactView {
    pub id: Seq<char>,
    pub path: Seq<char>,
    pub latest: u32,
    pub locked_by: Option<Seq<char>>,
    pub revisions: Seq<RevisionView>,
    pub moved_from: Option<Seq<char>>,
}

impl View for Artifact {
    type V = ArtifactView;

    open spec fn view(&self) -> ArtifactView {
        ArtifactView {
            id: self.id@,
            path: self.path@,
            latest: self.latest,
            locked_by: self.locked_by.deep_view(),
            revisions: self.revisions@.map_values(|r: Revision| r@),
            moved_from: self.moved_from.deep_view(),
        }
    }
}

/// The revision history is numbered 1, 2, ... without gaps, and `latest`
/// names its last entry.
pub open spec fn history_well_formed(a: ArtifactView) -> bool {
    &&& a.latest == a.revisions.len()
    &&& forall|i: int| 0 <= i < a.revisions.len() ==> #[trigger] a.revisions[i].rev == i + 1
}

/// One artifact change recorded in a commit.
pub struct CommitArtifact {
    pub path: String,
    pub artifact_id: String,
    pub revision_base: u32,
    pub hash: String,
    pub op: String,
}

impl Clone for CommitArtifact {
    fn clone(&self) -> (r: Self)
        ensures
            r == *self,
    {
        CommitArtifact {
            path: self.path.clone(),
            artifact_id: self.artifact_id.clone(),
            revision_base: self.revision_base,
            hash: self.hash.clone(),
            op: self.op.clone(),
        }
    }
}

/// A commit: its identifier, parent, message, author and changes.
pub struct Commit {
    pub id: String,
    pub parent: Option<String>,
    pub message: String,
    pub author: String,
    pub artifacts: Vec<CommitArtifact>,
    pub timestamp: u64,
}

impl Clone for Commit {
    fn clone(&self) -> (r: Self)
        ensures
            r.id == self.id,
            r.parent == self.parent,
            r.message == self.message,
            r.author == self.author,
            r.artifacts@ == self.artifacts@,
            r.timestamp == self.timestamp,
    {
        let artifacts = self.artifacts.clone();
        assert(artifacts@ =~= self.artifacts@);
        Commit {
            id: self.id.clone(),
            parent: self.parent.clone(),
            message: self.message.clone(),
            author: self.author.clone(),
            artifacts,
            timestamp: self.timestamp,
        }
    }
}

/// An external git repository pinned at a commit.
pub struct GitModule {
    pub path: String,
    pub url: String,
    pub commit: String,
}

impl Clone for GitModule {
    fn clone(&self) -> (r: Self)
        ensures
            r == *self,
    {
        GitModule { path: self.path.clone(), url: self.url.clone(), commit: self.commit.clone() }
    }
}

/// Size and modification time recorded when a file is staged.
#[derive(Clone, Copy, Debug)]
pub struct StagedInfo {
    pub mtime: u64,
    pub size: u64,
}

/// The client's record of one working-directory artifact.
pub struct IndexArtifact {
    pub artifact_id: String,
    pub revision: u32,
    pub local_state: String,
    pub stage: String,
    pub locked: bool,
    pub lock_owner: Option<String>,
    pub lock_generation: Option<String>,
    pub staged: Option<StagedInfo>,
    pub moved_from: Option<String>,
}

impl Clone for IndexArtifact {
    fn clone(&self) -> (r: Self)
        ensures
            r == *self,
    {
        IndexArtifact {
            artifact_id: self.artifact_id.clone(),
            revision: self.revision,
            local_state: self.local_state.clone(),
            stage: self.stage.clone(),
            locked: self.locked,
            lock_owner: self.lock_owner.clone(),
            lock_generation: self.lock_generation.clone(),
            staged: self.staged,
            moved_from: self.moved_from.clone(),
        }
    }
}

/// An index entry as plain values.
pub struct IndexArtifactView {
    pub artifact_id: Seq<char>,
    pub revision: u32,
    pub local_state: Seq<char>,
    pub stage: Seq<char>,
    pub locked: bool,
    pub lock_owner: Option<Seq<char>>,
    pub lock_generation: Option<Seq<char>>,
    pub staged: Option<StagedInfo>,
    pub moved_from: Option<Seq<char>>,
}

impl View for IndexArtifact {
    type V = IndexArtifactView;

    open spec fn view(&self) -> IndexArtifactView {
        IndexArtifactView {
            artifact_id: self.artifact_id@,
            revision: self.revision,
            local_state: self.local_state@,
            stage: self.stage@,
            locked: self.locked,
            lock_owner: self.lock_owner.deep_view(),
            lock_generation: self.lock_generation.deep_view(),
            staged: self.staged,
            moved_from: self.moved_from.deep_view(),
        }
    }
}

/// A git module as plain values.
pub struct GitModuleView {
    pub path: Seq<char>,
    pub url: Seq<char>,
    pub commit: Seq<char>,
}

impl View for GitModule {
    type V = GitModuleView;

    open spec fn view(&self) -> GitModuleView {
        GitModuleView { path: self.path@, url: self.url@, commit: self.commit@ }
    }
}

/// A commit change as plain values.
pub struct CommitArtifactView {
    pub path: Seq<char>,
    pub artifact_id: Seq<char>,
    pub revision_base: u32,
    pub hash: Seq<char>,
    pub op: Seq<char>,
}

impl View for CommitArtifact {
    type V = CommitArtifactView;

    open spec fn view(&self) -> CommitArtifactView {
        CommitArtifactView {
            path: self.path@,
            artifact_id: self.artifact_id@,
            revision_base: self.revision_base,
            hash: self.hash@,
            op: self.op@,
        }
    }
}

/// The local state word of an artifact whose payload has not been pulled.
pub open spec fn placeholder_word() -> Seq<char> {
    "placeholder"@
}

/// The local state word of an artifact whose payload is present.
pub open spec fn ready_word() -> Seq<char> {
    "ready"@
}

/// The stage word of an artifact staged with `rig add`.
pub open spec fn staged_word() -> Seq<char> {
    "staged"@
}

/// The stage word of an artifact that is not staged.
pub open spec fn unstaged_word() -> Seq<char> {
    "none"@
}

/// `"placeholder"` as a string.
pub fn placeholder_text() -> (s: String)
    ensures
        s@ == placeholder_word(),
{
    String::from_str("placeholder")
}

/// `"ready"` as a string.
pub fn ready_text() -> (s: String)
    ensures
        s@ == ready_word(),
{
    String::from_str("ready")
}

/// `"staged"` as a string.
pub fn staged_text() -> (s: String)
    ensures
        s@ == staged_word(),
{
    String::from_str("staged")
}

/// `"none"` as a string.
pub fn unstaged_text() -> (s: String)
    ensures
        s@ == unstaged_word(),
{
    String::from_str("none")
}

/// The untouched, unlocked entry of artifact `id` at `revision` whose
/// payload is not pulled.
pub open spec fn placeholder_view(id: Seq<char>, revision: u32) -> IndexArtifactView {
    IndexArtifactView {
        artifact_id: id,
        revision,
        local_state: placeholder_word(),
        stage: unstaged_word(),
        locked: false,
        lock_owner: None,
        lock_generation: None,
        staged: None,
        moved_from: None,
    }
}

/// An untouched, unlocked entry for an artifact whose payload is not pulled.
pub open spec fn is_placeholder_entry(a: IndexArtifact, id: Seq<char>, revision: u32) -> bool {
    a@ == placeholder_view(id, revision)
}

/// The entry for artifact `id` at `revision`, not yet pulled.
pub fn placeholder_entry(id: String, revision: u32) -> (a: IndexArtifact)
    ensures
        is_placeholder_entry(a, id@, revision),
{
    IndexArtifact {
        artifact_id: id,
        revision,
        local_state: placeholder_text(),
        stage: unstaged_text(),
        locked: false,
        lock_owner: None,
        lock_generation: None,
        staged: None,
        moved_from: None,
    }
}

/// The client's index: version, branch, unpushed head and the tracked
/// artifacts keyed by working-directory path.
pub struct Index {
    pub version: u32,
    pub branch: String,
    pub head: Option<String>,
    pub artifacts: StrMap<IndexArtifact>,
    pub git_modules: StrMap<GitModule>,
}

impl Default for Index {
    fn default() -> (r: Self)
        ensures
            r.version == 1,
            r.branch@ == "main"@,
            r.head is None,
            r.artifacts@ == Map::<Seq<char>, IndexArtifact>::empty(),
            r.artifacts.pairs().len() == 0,
            r.git_modules.pairs().len() == 0,
    {
        Index {
            version: 1,
            branch: String::from_str("main"),
            head: None,
            artifacts: StrMap::new(),
            git_modules: StrMap::new(),
        }
    }
}

/// The server's index of a project: refs, artifacts keyed by id, modules
/// and commits keyed by id.
pub struct IndexFile {
    pub project: String,
    pub server_url: Option<String>,
    pub username: Option<String>,
    pub latest_commit: String,
    pub refs: StrMap<String>,
    pub artifacts: StrMap<Artifact>,
    pub git_modules: StrMap<GitModule>,
    pub commits: StrMap<Commit>,
}

} // verus!
