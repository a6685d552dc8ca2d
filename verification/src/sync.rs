//! The client's exchanges with the server: what cloning, fetching, pushing
//! and pulling make of the server's index, and how payloads travel.
use vstd::prelude::*;
use crate::codec::{content_hash, content_hash_of, gunzip, gunzip_of, gzip, gzip_of};
use crate::protocol::{
    placeholder_entry, placeholder_text, placeholder_view, placeholder_word, ready_text,
    ready_word, unstaged_text, unstaged_word, Artifact, Commit, CommitArtifact,
    CommitArtifactView, GitModule, Index, IndexArtifact, IndexArtifactView, RevisionView,
};
use crate::table::{lemma_filter_map_step, StrMap};
use crate::text::{
    chars_of, concat, decimal, decimal_text, first_char_index, first_index_of_char, has_prefix,
    join_path, joined, last_char_index, last_index_of_char, parse_u32, parsed_u32, same_text,
    starts_with, strip_prefix, substring, trim_end_char, trim_end_matching, trim_text, trimmed,
};

verus! {

// ---------------------------------------------------------------------
// Cloning
// ---------------------------------------------------------------------

/// The server a clone over SSH talks HTTP to.
pub open spec fn default_server() -> Seq<char> {
    "http://localhost:3000"@
}

/// The error of a clone URL without a `/`.
pub open spec fn invalid_url_message() -> Seq<char> {
    "Invalid URL format. Expected http://<server>/<project> or ssh://<user>@<host>:<port>/<project>"@
}

/// The project and server base a clone URL names. Trailing slashes are
/// dropped; the project is the text after the last `/`. An `ssh://` URL
/// talks to the default server, any other to the text before that `/`.
pub open spec fn clone_target(url: Seq<char>) -> Option<(Seq<char>, Seq<char>)> {
    let t = trim_end_char(url, '/');
    let slash = last_index_of_char(t, '/');
    if slash < 0 {
        None
    } else if starts_with(t, "ssh://"@) {
        Some((t.skip(slash + 1), default_server()))
    } else {
        Some((t.skip(slash + 1), t.take(slash)))
    }
}

/// Splits a clone URL into the project name and the server base.
pub fn parse_clone_url(url: &str) -> (r: Result<(String, String), String>)
    ensures
        match r {
            Ok((project, base)) => clone_target(url@) == Some((project@, base@)),
            Err(m) => clone_target(url@) is None && m@ == invalid_url_message(),
        },
{
    let t = trim_end_matching(url, '/');
    let cs = chars_of(t.as_str());
    assert(cs@.take(cs@.len() as int) =~= cs@);
    match last_char_index(&cs, cs.len(), '/') {
        None => Err(
            String::from_str(
                "Invalid URL format. Expected http://<server>/<project> or ssh://<user>@<host>:<port>/<project>",
            ),
        ),
        Some(slash) => {
            let project = substring(&cs, slash + 1, cs.len());
            assert(cs@.subrange(slash + 1, cs@.len() as int) =~= cs@.skip(slash + 1));
            if has_prefix(t.as_str(), "ssh://") {
                Ok((project, String::from_str("http://localhost:3000")))
            } else {
                let base = substring(&cs, 0, slash);
                assert(cs@.subrange(0, slash as int) =~= cs@.take(slash as int));
                Ok((project, base))
            }
        },
    }
}

/// `o` with its text trimmed.
pub open spec fn trimmed_opt(o: Option<Seq<char>>) -> Option<Seq<char>> {
    match o {
        Some(s) => Some(trimmed(s)),
        None => None,
    }
}

/// The user name a clone records: the one given, else the typed answer
/// (trimmed), else the git identity, else `unknown`.
pub open spec fn chosen_username(provided: Option<Seq<char>>, git_user: Option<Seq<char>>, typed: Seq<char>) -> Seq<char> {
    match provided {
        Some(u) => u,
        None => if trimmed(typed).len() > 0 {
            trimmed(typed)
        } else {
            match git_user {
                Some(g) => g,
                None => "unknown"@,
            }
        },
    }
}

/// The user name of a clone. `typed` is what the user answered when asked;
/// it only counts when no name was given.
pub fn choose_username(provided: Option<String>, git_user: Option<String>, typed: &str) -> (u: String)
    ensures
        u@ == chosen_username(provided.deep_view(), git_user.deep_view(), typed@),
{
    match provided {
        Some(u) => u,
        None => {
            let t = trim_text(typed);
            if !t.as_str().is_empty() {
                t
            } else {
                match git_user {
                    Some(g) => g,
                    None => String::from_str("unknown"),
                }
            }
        },
    }
}

/// The identity git reports: `name <email>`, or whichever part is set.
pub open spec fn git_identity_of(name: Option<Seq<char>>, email: Option<Seq<char>>) -> Option<Seq<char>> {
    match (name, email) {
        (Some(n), Some(e)) => Some(n + " <"@ + e + ">"@),
        (Some(n), None) => Some(n),
        (None, Some(e)) => Some("<"@ + e + ">"@),
        (None, None) => None,
    }
}

/// The git identity from the outputs of `git config user.name` and
/// `git config user.email` (each `None` when the command failed).
pub fn git_identity(name_output: Option<String>, email_output: Option<String>) -> (r: Option<String>)
    ensures
        r.deep_view() == git_identity_of(trimmed_opt(name_output.deep_view()), trimmed_opt(email_output.deep_view())),
{
    let name = match name_output {
        Some(n) => Some(trim_text(n.as_str())),
        None => None,
    };
    let email = match email_output {
        Some(e) => Some(trim_text(e.as_str())),
        None => None,
    };
    match (name, email) {
        (Some(n), Some(e)) => {
            let a = concat(n.as_str(), " <");
            let b = concat(a.as_str(), e.as_str());
            Some(concat(b.as_str(), ">"))
        },
        (Some(n), None) => Some(n),
        (None, Some(e)) => {
            let a = concat("<", e.as_str());
            Some(concat(a.as_str(), ">"))
        },
        (None, None) => None,
    }
}

/// The entries of a fresh clone: every artifact of the server, by its path,
/// as an unlocked placeholder at its latest revision.
pub open spec fn cloned_entries(pairs: Seq<(Seq<char>, Artifact)>) -> Map<Seq<char>, IndexArtifactView>
    decreases pairs.len(),
{
    if pairs.len() == 0 {
        Map::empty()
    } else {
        cloned_entries(pairs.drop_last()).insert(
            pairs.last().1.path@,
            placeholder_view(pairs.last().1.id@, pairs.last().1.latest),
        )
    }
}

/// The index of a fresh clone of a project whose server index holds
/// `artifacts` and `git_modules`.
pub fn clone_index(artifacts: &StrMap<Artifact>, git_modules: StrMap<GitModule>) -> (index: Index)
    ensures
        index.version == 1,
        index.branch@ == "main"@,
        index.head is None,
        index.artifacts.vmap() == cloned_entries(artifacts.pairs()),
        index.git_modules == git_modules,
{
    let mut local: StrMap<IndexArtifact> = StrMap::new();
    let mut i: usize = 0;
    assert(local.vmap() =~= cloned_entries(artifacts.pairs().take(0)));
    while i < artifacts.len()
        invariant
            i <= artifacts.pairs().len(),
            local.vmap() == cloned_entries(artifacts.pairs().take(i as int)),
        decreases artifacts.pairs().len() - i,
    {
        let a = artifacts.value_at(i);
        let e = placeholder_entry(a.id.clone(), a.latest);
        let ghost ev = e@;
        local.insert(a.path.clone(), e);
        assert(artifacts.pairs().take(i + 1).drop_last() =~= artifacts.pairs().take(i as int));
        assert(local.vmap() =~= cloned_entries(artifacts.pairs().take(i + 1)));
        i += 1;
    }
    assert(artifacts.pairs().take(artifacts.pairs().len() as int) =~= artifacts.pairs());
    Index { version: 1, branch: String::from_str("main"), head: None, artifacts: local, git_modules }
}

// ---------------------------------------------------------------------
// Refs
// ---------------------------------------------------------------------

/// Ref pairs taken by their characters.
pub open spec fn ref_views(v: Seq<(String, String)>) -> Seq<(Seq<char>, Seq<char>)> {
    v.map_values(|p: (String, String)| (p.0@, p.1@))
}

/// The refs a fetch or pull writes: those of the server, or, when it
/// lists none, the main branch at its latest commit, if there is one.
pub open spec fn synced_refs_of(refs: Seq<(Seq<char>, String)>, latest: Seq<char>) -> Seq<(Seq<char>, Seq<char>)> {
    if refs.len() > 0 {
        refs.map_values(|p: (Seq<char>, String)| (p.0, p.1@))
    } else if latest.len() > 0 {
        seq![("refs/heads/main"@, latest)]
    } else {
        Seq::empty()
    }
}

/// The refs to write after fetching a server index with `refs` and
/// `latest` commit.
pub fn synced_refs(refs: &StrMap<String>, latest: &str) -> (r: Vec<(String, String)>)
    ensures
        ref_views(r@) == synced_refs_of(refs.pairs(), latest@),
{
    let mut out: Vec<(String, String)> = Vec::new();
    if refs.len() == 0 {
        if !latest.is_empty() {
            out.push((String::from_str("refs/heads/main"), String::from_str(latest)));
            assert(ref_views(out@) =~= seq![("refs/heads/main"@, latest@)]);
        } else {
            assert(ref_views(out@) =~= Seq::<(Seq<char>, Seq<char>)>::empty());
        }
        return out;
    }
    let mut i: usize = 0;
    while i < refs.len()
        invariant
            i <= refs.pairs().len(),
            ref_views(out@) == refs.pairs().take(i as int).map_values(|p: (Seq<char>, String)| (p.0, p.1@)),
        decreases refs.pairs().len() - i,
    {
        let ghost before = out@;
        let k = refs.key_at(i).clone();
        let v = refs.value_at(i).clone();
        out.push((k, v));
        assert(ref_views(out@) =~= ref_views(before).push((refs.pairs()[i as int].0, refs.pairs()[i as int].1@)));
        assert(refs.pairs().take(i + 1) =~= refs.pairs().take(i as int).push(refs.pairs()[i as int]));
        assert(ref_views(out@) =~= refs.pairs().take(i + 1).map_values(
            |p: (Seq<char>, String)| (p.0, p.1@),
        ));
        i += 1;
    }
    assert(refs.pairs().take(refs.pairs().len() as int) =~= refs.pairs());
    out
}

/// The refs to write after a push: as after a fetch, but none while the
/// server has no latest commit.
pub fn pushed_refs(refs: &StrMap<String>, latest: &str) -> (r: Vec<(String, String)>)
    ensures
        ref_views(r@) == if latest@.len() > 0 {
            synced_refs_of(refs.pairs(), latest@)
        } else {
            Seq::empty()
        },
{
    if !latest.is_empty() {
        synced_refs(refs, latest)
    } else {
        let out: Vec<(String, String)> = Vec::new();
        assert(ref_views(out@) =~= Seq::<(Seq<char>, Seq<char>)>::empty());
        out
    }
}

// ---------------------------------------------------------------------
// Fetching
// ---------------------------------------------------------------------

/// The entry a fetch leaves for server artifact `a` (keyed `id`): a known
/// path takes the server's revision and lock; a new path becomes a
/// placeholder with the server's lock.
pub open spec fn fetched_entry(prev: Option<IndexArtifactView>, id: Seq<char>, a: Artifact) -> IndexArtifactView {
    match prev {
        Some(e) => IndexArtifactView {
            revision: a.latest,
            locked: a.locked_by is Some,
            lock_owner: a.locked_by.deep_view(),
            ..e
        },
        None => IndexArtifactView {
            artifact_id: id,
            revision: a.latest,
            local_state: placeholder_word(),
            stage: unstaged_word(),
            locked: a.locked_by is Some,
            lock_owner: a.locked_by.deep_view(),
            lock_generation: None,
            staged: None,
            moved_from: None,
        },
    }
}

/// The entries after fetching the server artifacts `pairs` into `local`,
/// one after the other.
pub open spec fn fetched_entries(
    local: Map<Seq<char>, IndexArtifactView>,
    pairs: Seq<(Seq<char>, Artifact)>,
) -> Map<Seq<char>, IndexArtifactView>
    decreases pairs.len(),
{
    if pairs.len() == 0 {
        local
    } else {
        let prev = fetched_entries(local, pairs.drop_last());
        let path = pairs.last().1.path@;
        prev.insert(
            path,
            fetched_entry(
                if prev.dom().contains(path) {
                    Some(prev[path])
                } else {
                    None
                },
                pairs.last().0,
                pairs.last().1,
            ),
        )
    }
}

/// Merges the server's artifacts into the index and takes its modules.
pub fn merge_fetched(index: &mut Index, artifacts: &StrMap<Artifact>, git_modules: StrMap<GitModule>)
    ensures
        final(index).artifacts.vmap() == fetched_entries(old(index).artifacts.vmap(), artifacts.pairs()),
        final(index).git_modules == git_modules,
        final(index).version == old(index).version,
        final(index).branch == old(index).branch,
        final(index).head == old(index).head,
{
    let mut i: usize = 0;
    assert(artifacts.pairs().take(0) =~= Seq::<(Seq<char>, Artifact)>::empty());
    while i < artifacts.len()
        invariant
            i <= artifacts.pairs().len(),
            index.artifacts.vmap() == fetched_entries(old(index).artifacts.vmap(), artifacts.pairs().take(i as int)),
            index.version == old(index).version,
            index.branch == old(index).branch,
            index.head == old(index).head,
            index.git_modules == old(index).git_modules,
        decreases artifacts.pairs().len() - i,
    {
        let id = artifacts.key_at(i);
        let a = artifacts.value_at(i);
        let ghost prev = index.artifacts.vmap();
        let entry = match index.artifacts.get(a.path.as_str()) {
            Some(e) => {
                let mut b = e.clone();
                b.revision = a.latest;
                b.locked = a.locked_by.is_some();
                b.lock_owner = a.locked_by.clone();
                b
            },
            None => IndexArtifact {
                artifact_id: id.clone(),
                revision: a.latest,
                local_state: placeholder_text(),
                stage: unstaged_text(),
                locked: a.locked_by.is_some(),
                lock_owner: a.locked_by.clone(),
                lock_generation: None,
                staged: None,
                moved_from: None,
            },
        };
        let ghost ev = entry@;
        assert(ev == fetched_entry(
            if prev.dom().contains(a.path@) {
                Some(prev[a.path@])
            } else {
                None
            },
            artifacts.pairs()[i as int].0,
            artifacts.pairs()[i as int].1,
        ));
        index.artifacts.insert(a.path.clone(), entry);
        assert(artifacts.pairs().take(i + 1).drop_last() =~= artifacts.pairs().take(i as int));
        assert(index.artifacts.vmap() =~= prev.insert(a.path@, ev));
        i += 1;
    }
    assert(artifacts.pairs().take(artifacts.pairs().len() as int) =~= artifacts.pairs());
    index.git_modules = git_modules;
}

// ---------------------------------------------------------------------
// After a push
// ---------------------------------------------------------------------

/// The entry a push leaves for server artifact `a` (keyed `id`): the
/// server's revision, nothing staged, and the local state and lock the
/// path had before, if it was tracked.
pub open spec fn pushed_entry(local: Map<Seq<char>, IndexArtifactView>, id: Seq<char>, a: Artifact) -> IndexArtifactView {
    let path = a.path@;
    let known = local.dom().contains(path);
    IndexArtifactView {
        artifact_id: id,
        revision: a.latest,
        local_state: if known {
            local[path].local_state
        } else {
            placeholder_word()
        },
        stage: unstaged_word(),
        locked: known && local[path].locked,
        lock_owner: if known {
            local[path].lock_owner
        } else {
            None
        },
        lock_generation: None,
        staged: None,
        moved_from: None,
    }
}

/// The entries after a push: one per server artifact, by its path.
pub open spec fn pushed_entries(
    local: Map<Seq<char>, IndexArtifactView>,
    pairs: Seq<(Seq<char>, Artifact)>,
) -> Map<Seq<char>, IndexArtifactView>
    decreases pairs.len(),
{
    if pairs.len() == 0 {
        Map::empty()
    } else {
        pushed_entries(local, pairs.drop_last()).insert(
            pairs.last().1.path@,
            pushed_entry(local, pairs.last().0, pairs.last().1),
        )
    }
}

/// Rebuilds the index from the server's after a push: the server's
/// artifacts and modules, and no unpushed head.
pub fn sync_after_push(index: &mut Index, artifacts: &StrMap<Artifact>, git_modules: StrMap<GitModule>)
    ensures
        final(index).artifacts.vmap() == pushed_entries(old(index).artifacts.vmap(), artifacts.pairs()),
        final(index).git_modules == git_modules,
        final(index).head is None,
        final(index).version == old(index).version,
        final(index).branch == old(index).branch,
{
    let ghost local = index.artifacts.vmap();
    let mut fresh: StrMap<IndexArtifact> = StrMap::new();
    let mut i: usize = 0;
    assert(fresh.vmap() =~= pushed_entries(local, artifacts.pairs().take(0)));
    while i < artifacts.len()
        invariant
            i <= artifacts.pairs().len(),
            local == index.artifacts.vmap(),
            fresh.vmap() == pushed_entries(local, artifacts.pairs().take(i as int)),
        decreases artifacts.pairs().len() - i,
    {
        let id = artifacts.key_at(i);
        let a = artifacts.value_at(i);
        let entry = match index.artifacts.get(a.path.as_str()) {
            Some(e) => IndexArtifact {
                artifact_id: id.clone(),
                revision: a.latest,
                local_state: e.local_state.clone(),
                stage: unstaged_text(),
                locked: e.locked,
                lock_owner: e.lock_owner.clone(),
                lock_generation: None,
                staged: None,
                moved_from: None,
            },
            None => IndexArtifact {
                artifact_id: id.clone(),
                revision: a.latest,
                local_state: placeholder_text(),
                stage: unstaged_text(),
                locked: false,
                lock_owner: None,
                lock_generation: None,
                staged: None,
                moved_from: None,
            },
        };
        let ghost ev = entry@;
        assert(ev == pushed_entry(local, artifacts.pairs()[i as int].0, artifacts.pairs()[i as int].1));
        fresh.insert(a.path.clone(), entry);
        assert(artifacts.pairs().take(i + 1).drop_last() =~= artifacts.pairs().take(i as int));
        assert(fresh.vmap() =~= pushed_entries(local, artifacts.pairs().take(i + 1)));
        i += 1;
    }
    assert(artifacts.pairs().take(artifacts.pairs().len() as int) =~= artifacts.pairs());
    index.artifacts = fresh;
    index.git_modules = git_modules;
    index.head = None;
}

// ---------------------------------------------------------------------
// Before a push
// ---------------------------------------------------------------------

/// The error of pushing a change whose path the index does not track.
pub open spec fn not_in_index_message(path: Seq<char>) -> Seq<char> {
    "Artifact '"@ + path + "' not found in index"@
}

/// The error of pushing a change that was never staged.
pub open spec fn not_staged_message(path: Seq<char>) -> Seq<char> {
    "Artifact '"@ + path + "' was not staged via 'rig add'"@
}

/// The error of pushing a file that changed after it was committed.
pub open spec fn changed_after_commit_message(path: Seq<char>) -> Seq<char> {
    "ERROR: File '"@ + path + "' changed after commit. Re-run 'rig add' and 'rig commit'."@
}

/// Whether the file must be hashed again before a push: its size or
/// modification time differ from those staged, or it was modified within
/// the second it was staged in (or its time is ahead of the clock).
pub open spec fn needs_rehash(size: u64, mtime: u64, now: u64, staged: crate::protocol::StagedInfo) -> bool {
    size != staged.size || mtime != staged.mtime || (if now >= staged.mtime {
        now - staged.mtime
    } else {
        0
    }) < 1
}

/// The refusal of a push whose change is not based on the server's latest
/// revision of the artifact.
pub open spec fn remote_updated_message() -> Seq<char> {
    "ERROR: Remote updated. Run 'rig pull' first."@
}

/// What the pre-flight check of a push says of one committed change, given
/// the server's latest revision of its artifact (none for an artifact the
/// server does not have), the file's current size, modification time and
/// content, and the clock.
pub open spec fn preflight_of(
    entries: Map<Seq<char>, IndexArtifactView>,
    change: CommitArtifactView,
    remote_latest: Option<u32>,
    size: u64,
    mtime: u64,
    now: u64,
    content: Seq<u8>,
) -> Result<(), Seq<char>> {
    if !entries.dom().contains(change.path) {
        Err(not_in_index_message(change.path))
    } else {
        match entries[change.path].staged {
            None => Err(not_staged_message(change.path)),
            Some(st) => if remote_latest is Some && remote_latest->0 != change.revision_base {
                Err(remote_updated_message())
            } else {
                let hash = if needs_rehash(size, mtime, now, st) {
                    content_hash_of(content)
                } else {
                    change.hash
                };
                if hash != change.hash {
                    Err(changed_after_commit_message(change.path))
                } else {
                    Ok(())
                }
            },
        }
    }
}

/// Checks, before a push, that the change is based on the server's latest
/// revision and that the committed file is still what was committed. The
/// content is hashed only when size or time suggest a change.
pub fn push_preflight(
    index: &Index,
    change: &CommitArtifact,
    remote_latest: Option<u32>,
    size: u64,
    mtime: u64,
    now: u64,
    content: &[u8],
) -> (r: Result<(), String>)
    ensures
        match preflight_of(index.artifacts.vmap(), change@, remote_latest, size, mtime, now, content@) {
            Ok(()) => r is Ok,
            Err(msg) => r matches Err(m) && m@ == msg,
        },
{
    let path = change.path.as_str();
    let entry = match index.artifacts.get(path) {
        None => {
            let a = concat("Artifact '", path);
            return Err(concat(a.as_str(), "' not found in index"));
        },
        Some(e) => e,
    };
    let st = match entry.staged {
        None => {
            let a = concat("Artifact '", path);
            return Err(concat(a.as_str(), "' was not staged via 'rig add'"));
        },
        Some(st) => st,
    };
    match remote_latest {
        Some(l) => {
            if l != change.revision_base {
                return Err(String::from_str("ERROR: Remote updated. Run 'rig pull' first."));
            }
        },
        None => {},
    }
    let age = if now >= st.mtime {
        now - st.mtime
    } else {
        0
    };
    let rehash = size != st.size || mtime != st.mtime || age < 1;
    let same = if rehash {
        let h = content_hash(content);
        same_text(h.as_str(), change.hash.as_str())
    } else {
        true
    };
    if !same {
        let a = concat("ERROR: File '", path);
        return Err(concat(a.as_str(), "' changed after commit. Re-run 'rig add' and 'rig commit'."));
    }
    Ok(())
}

// ---------------------------------------------------------------------
// Payloads
// ---------------------------------------------------------------------

/// Payloads larger than this many bytes are sent compressed when that
/// makes them smaller.
pub const COMPRESSION_THRESHOLD: usize = 1048576;

/// What a push sends for a file's content, and whether it is compressed;
/// `None` when the compressor fails.
pub open spec fn packed_of(data: Seq<u8>) -> Option<(Seq<u8>, bool)> {
    if data.len() <= COMPRESSION_THRESHOLD {
        Some((data, false))
    } else {
        match gzip_of(data) {
            None => None,
            Some(c) => if c.len() < data.len() {
                Some((c, true))
            } else {
                Some((data, false))
            },
        }
    }
}

/// The content a pull recovers from a downloaded payload; `None` when a
/// compressed payload does not decompress.
pub open spec fn unpacked_of(payload: Seq<u8>, compressed: bool) -> Option<Seq<u8>> {
    if compressed {
        gunzip_of(payload)
    } else {
        Some(payload)
    }
}

/// The payload a push sends for `data`. What a pull unpacks from it is
/// `data` again.
pub fn pack_payload(data: Vec<u8>) -> (r: Option<(Vec<u8>, bool)>)
    ensures
        match r {
            Some((p, c)) => packed_of(data@) == Some((p@, c)) && unpacked_of(p@, c) == Some(data@),
            None => packed_of(data@) is None,
        },
{
    if data.len() <= COMPRESSION_THRESHOLD {
        return Some((data, false));
    }
    match gzip(data.as_slice()) {
        None => None,
        Some(c) => if c.len() < data.len() {
            Some((c, true))
        } else {
            Some((data, false))
        },
    }
}

/// The content of a downloaded payload.
pub fn unpack_payload(payload: Vec<u8>, compressed: bool) -> (r: Option<Vec<u8>>)
    ensures
        match r {
            Some(d) => unpacked_of(payload@, compressed) == Some(d@),
            None => unpacked_of(payload@, compressed) is None,
        },
{
    if compressed {
        gunzip(payload.as_slice())
    } else {
        Some(payload)
    }
}

// ---------------------------------------------------------------------
// Pulling
// ---------------------------------------------------------------------

/// What `rig pull` was asked for: a path (or `*`), and optionally a
/// revision number or a commit to take the revision from.
pub struct PullSpec {
    pub path: String,
    pub rev: Option<u32>,
    pub commit: Option<String>,
}

/// The path, revision and commit written into the path argument:
/// `path#rev`, `path@rev` when what follows `@` is a number, else
/// `path@commit`.
pub open spec fn inline_spec(arg: Seq<char>) -> (Seq<char>, Option<u32>, Option<Seq<char>>) {
    let h = first_index_of_char(arg, '#');
    let a = first_index_of_char(arg, '@');
    if h >= 0 {
        (arg.take(h), parsed_u32(arg.skip(h + 1)), None)
    } else if a >= 0 {
        match parsed_u32(arg.skip(a + 1)) {
            Some(v) => (arg.take(a), Some(v), None),
            None => (arg.take(a), None, Some(arg.skip(a + 1))),
        }
    } else {
        (arg, None, None)
    }
}

/// The request after the revision argument, if any, has its say: `#N` or
/// a plain number sets the revision (when it parses), `@C` the commit.
pub open spec fn pull_spec_of(arg: Seq<char>, rev_arg: Option<Seq<char>>) -> (Seq<char>, Option<u32>, Option<Seq<char>>) {
    let (p, rev, commit) = inline_spec(arg);
    match rev_arg {
        None => (p, rev, commit),
        Some(r) => if starts_with(r, seq!['#']) {
            match parsed_u32(r.skip(1)) {
                Some(v) => (p, Some(v), commit),
                None => (p, rev, commit),
            }
        } else if starts_with(r, seq!['@']) {
            (p, rev, Some(r.skip(1)))
        } else {
            match parsed_u32(r) {
                Some(v) => (p, Some(v), commit),
                None => (p, rev, commit),
            }
        },
    }
}

impl PullSpec {
    /// A pull of the current revisions into the working copy, which updates
    /// the index; a pinned revision or commit, or an output path, does not.
    pub open spec fn standard(&self, out_given: bool) -> bool {
        self.rev is None && self.commit is None && !out_given
    }

    /// Whether the pull updates the index.
    pub fn is_standard(&self, out_given: bool) -> (b: bool)
        ensures
            b == self.standard(out_given),
    {
        self.rev.is_none() && self.commit.is_none() && !out_given
    }
}

/// Reads the path argument and the revision argument of `rig pull`.
pub fn parse_pull_spec(path_arg: &str, rev_arg: Option<String>) -> (s: PullSpec)
    ensures
        (s.path@, s.rev, s.commit.deep_view()) == pull_spec_of(path_arg@, rev_arg.deep_view()),
{
    let cs = chars_of(path_arg);
    assert(cs@.take(cs@.len() as int) =~= cs@);
    let mut path = String::from_str(path_arg);
    let mut rev: Option<u32> = None;
    let mut commit: Option<String> = None;
    match first_char_index(&cs, '#') {
        Some(h) => {
            let tail = substring(&cs, h + 1, cs.len());
            assert(cs@.subrange(h + 1, cs@.len() as int) =~= cs@.skip(h + 1));
            rev = parse_u32(tail.as_str());
            path = substring(&cs, 0, h);
            assert(cs@.subrange(0, h as int) =~= cs@.take(h as int));
        },
        None => match first_char_index(&cs, '@') {
            Some(a) => {
                let tail = substring(&cs, a + 1, cs.len());
                assert(cs@.subrange(a + 1, cs@.len() as int) =~= cs@.skip(a + 1));
                match parse_u32(tail.as_str()) {
                    Some(v) => {
                        rev = Some(v);
                    },
                    None => {
                        commit = Some(tail);
                    },
                }
                path = substring(&cs, 0, a);
                assert(cs@.subrange(0, a as int) =~= cs@.take(a as int));
            },
            None => {},
        },
    }
    assert((path@, rev, commit.deep_view()) == inline_spec(path_arg@));
    proof {
        reveal_strlit("#");
        reveal_strlit("@");
        assert("#"@ =~= seq!['#']);
        assert("@"@ =~= seq!['@']);
    }
    match rev_arg {
        None => {},
        Some(r) => match strip_prefix(r.as_str(), "#") {
            Some(t) => match parse_u32(t.as_str()) {
                Some(v) => {
                    rev = Some(v);
                },
                None => {},
            },
            None => match strip_prefix(r.as_str(), "@") {
                Some(t) => {
                    commit = Some(t);
                },
                None => match parse_u32(r.as_str()) {
                    Some(v) => {
                        rev = Some(v);
                    },
                    None => {},
                },
            },
        },
    }
    PullSpec { path, rev, commit }
}

/// One artifact a pull fetches: where it goes, its id and the revision.
pub struct PullTarget {
    pub path: String,
    pub id: String,
    pub rev: u32,
}

impl View for PullTarget {
    type V = (Seq<char>, Seq<char>, u32);

    open spec fn view(&self) -> (Seq<char>, Seq<char>, u32) {
        (self.path@, self.id@, self.rev)
    }
}

/// Pull targets taken by their views.
pub open spec fn target_views(v: Seq<PullTarget>) -> Seq<(Seq<char>, Seq<char>, u32)> {
    v.map_values(|t: PullTarget| t@)
}

/// The revision base of the first change to artifact `id` among `changes`.
pub open spec fn first_change_revision(changes: Seq<CommitArtifact>, id: Seq<char>) -> Option<u32>
    decreases changes.len(),
{
    if changes.len() == 0 {
        None
    } else if changes[0].artifact_id@ == id {
        Some(changes[0].revision_base)
    } else {
        first_change_revision(changes.drop_first(), id)
    }
}

/// The revision base the first change to artifact `id` in `changes` records.
pub fn change_revision(changes: &Vec<CommitArtifact>, id: &str) -> (r: Option<u32>)
    ensures
        r == first_change_revision(changes@, id@),
{
    let mut i: usize = 0;
    assert(changes@.skip(0) =~= changes@);
    while i < changes.len()
        invariant
            i <= changes@.len(),
            first_change_revision(changes@, id@) == first_change_revision(changes@.skip(i as int), id@),
        decreases changes@.len() - i,
    {
        assert(changes@.skip(i as int)[0] == changes@[i as int]);
        if same_text(changes[i].artifact_id.as_str(), id) {
            return Some(changes[i].revision_base);
        }
        assert(changes@.skip(i as int).drop_first() =~= changes@.skip(i + 1));
        i += 1;
    }
    None
}

/// The latest revision known for artifact `id` at `path`: the server's,
/// else the index's, else 0.
pub open spec fn latest_known(
    remote: Map<Seq<char>, crate::protocol::ArtifactView>,
    local: Map<Seq<char>, IndexArtifactView>,
    id: Seq<char>,
    path: Seq<char>,
) -> u32 {
    if remote.dom().contains(id) {
        remote[id].latest
    } else if local.dom().contains(path) {
        local[path].revision
    } else {
        0
    }
}

fn latest_known_rev(remote: &StrMap<Artifact>, local: &Index, id: &str, path: &str) -> (r: u32)
    ensures
        r == latest_known(remote.vmap(), local.artifacts.vmap(), id@, path@),
{
    match remote.get(id) {
        Some(a) => a.latest,
        None => match local.artifacts.get(path) {
            Some(e) => e.revision,
            None => 0,
        },
    }
}

/// Server artifacts whose path begins with `q`.
pub open spec fn remote_match(q: Seq<char>) -> spec_fn((Seq<char>, Artifact)) -> bool {
    |p: (Seq<char>, Artifact)| starts_with(p.1.path@, q)
}

/// Tracked paths that begin with `q`.
pub open spec fn local_match(q: Seq<char>) -> spec_fn((Seq<char>, IndexArtifact)) -> bool {
    |p: (Seq<char>, IndexArtifact)| starts_with(p.0, q)
}

/// A server artifact as a candidate: path, id (its key) and latest revision.
pub open spec fn remote_candidate(
    rm: Map<Seq<char>, crate::protocol::ArtifactView>,
    lm: Map<Seq<char>, IndexArtifactView>,
) -> spec_fn((Seq<char>, Artifact)) -> (Seq<char>, Seq<char>, u32) {
    |p: (Seq<char>, Artifact)| (p.1.path@, p.0, latest_known(rm, lm, p.0, p.1.path@))
}

/// A tracked path as a candidate: path, artifact id and latest revision.
pub open spec fn local_candidate(
    rm: Map<Seq<char>, crate::protocol::ArtifactView>,
    lm: Map<Seq<char>, IndexArtifactView>,
) -> spec_fn((Seq<char>, IndexArtifact)) -> (Seq<char>, Seq<char>, u32) {
    |p: (Seq<char>, IndexArtifact)| (p.0, p.1.artifact_id@, latest_known(rm, lm, p.1.artifact_id@, p.0))
}

/// A server artifact as a candidate of `*`.
pub open spec fn star_candidate() -> spec_fn((Seq<char>, Artifact)) -> (Seq<char>, Seq<char>, u32) {
    |p: (Seq<char>, Artifact)| (p.1.path@, p.1.id@, p.1.latest)
}

/// The artifacts a pull of `q` concerns, each with its latest revision:
/// for `*` every server artifact; otherwise the server artifacts under `q`,
/// or, when there are none, the tracked paths under `q`.
pub open spec fn pull_candidates_of(
    q: Seq<char>,
    remote: Seq<(Seq<char>, Artifact)>,
    local: Seq<(Seq<char>, IndexArtifact)>,
    rm: Map<Seq<char>, crate::protocol::ArtifactView>,
    lm: Map<Seq<char>, IndexArtifactView>,
) -> Seq<(Seq<char>, Seq<char>, u32)> {
    if q == "*"@ {
        remote.map_values(star_candidate())
    } else {
        let r = remote.filter(remote_match(q)).map_values(remote_candidate(rm, lm));
        if r.len() > 0 {
            r
        } else {
            local.filter(local_match(q)).map_values(local_candidate(rm, lm))
        }
    }
}

fn pull_candidates(q: &str, remote: &StrMap<Artifact>, local: &Index) -> (v: Vec<PullTarget>)
    ensures
        target_views(v@) == pull_candidates_of(
            q@,
            remote.pairs(),
            local.artifacts.pairs(),
            remote.vmap(),
            local.artifacts.vmap(),
        ),
{
    let ghost rm = remote.vmap();
    let ghost lm = local.artifacts.vmap();
    let mut v: Vec<PullTarget> = Vec::new();
    if same_text(q, "*") {
        let mut i: usize = 0;
        while i < remote.len()
            invariant
                i <= remote.pairs().len(),
                target_views(v@) == remote.pairs().take(i as int).map_values(star_candidate()),
            decreases remote.pairs().len() - i,
        {
            let a = remote.value_at(i);
            let ghost before = v@;
            v.push(PullTarget { path: a.path.clone(), id: a.id.clone(), rev: a.latest });
            assert(remote.pairs().take(i + 1) =~= remote.pairs().take(i as int).push(remote.pairs()[i as int]));
            assert(target_views(v@) =~= target_views(before).push(star_candidate()(remote.pairs()[i as int])));
            i += 1;
        }
        assert(remote.pairs().take(remote.pairs().len() as int) =~= remote.pairs());
        return v;
    }
    let mut i: usize = 0;
    while i < remote.len()
        invariant
            i <= remote.pairs().len(),
            rm == remote.vmap(),
            lm == local.artifacts.vmap(),
            target_views(v@) == remote.pairs().take(i as int).filter(remote_match(q@)).map_values(
                remote_candidate(rm, lm),
            ),
        decreases remote.pairs().len() - i,
    {
        proof {
            lemma_filter_map_step(remote.pairs(), i as int, remote_match(q@), remote_candidate(rm, lm));
        }
        let id = remote.key_at(i);
        let a = remote.value_at(i);
        let ghost before = v@;
        if has_prefix(a.path.as_str(), q) {
            let latest = latest_known_rev(remote, local, id.as_str(), a.path.as_str());
            v.push(PullTarget { path: a.path.clone(), id: id.clone(), rev: latest });
            assert(target_views(v@) =~= target_views(before).push(
                remote_candidate(rm, lm)(remote.pairs()[i as int]),
            ));
        }
        i += 1;
    }
    assert(remote.pairs().take(remote.pairs().len() as int) =~= remote.pairs());
    if v.len() > 0 {
        return v;
    }
    let ghost lp = local.artifacts.pairs();
    let mut k: usize = 0;
    assert(lp.take(0).filter(local_match(q@)).map_values(local_candidate(rm, lm)) =~= Seq::<
        (Seq<char>, Seq<char>, u32),
    >::empty()) by {
        reveal_with_fuel(Seq::filter, 1);
    }
    assert(target_views(v@) =~= Seq::<(Seq<char>, Seq<char>, u32)>::empty());
    while k < local.artifacts.len()
        invariant
            k <= lp.len(),
            lp == local.artifacts.pairs(),
            rm == remote.vmap(),
            lm == local.artifacts.vmap(),
            target_views(v@) == lp.take(k as int).filter(local_match(q@)).map_values(local_candidate(rm, lm)),
        decreases lp.len() - k,
    {
        proof {
            lemma_filter_map_step(lp, k as int, local_match(q@), local_candidate(rm, lm));
        }
        let path = local.artifacts.key_at(k);
        let e = local.artifacts.value_at(k);
        let ghost before = v@;
        if has_prefix(path.as_str(), q) {
            let latest = latest_known_rev(remote, local, e.artifact_id.as_str(), path.as_str());
            v.push(PullTarget { path: path.clone(), id: e.artifact_id.clone(), rev: latest });
            assert(target_views(v@) =~= target_views(before).push(local_candidate(rm, lm)(lp[k as int])));
        }
        k += 1;
    }
    assert(lp.take(lp.len() as int) =~= lp);
    v
}

/// The revision a target is pulled at: from the requested commit's change
/// to it (else its latest), or the requested revision (else its latest).
pub open spec fn target_revision(
    rev: Option<u32>,
    commit: Option<Seq<char>>,
    commits: Map<Seq<char>, Commit>,
    id: Seq<char>,
    latest: u32,
) -> u32 {
    match commit {
        Some(h) => match first_change_revision(commits[h].artifacts@, id) {
            Some(r) => r,
            None => latest,
        },
        None => match rev {
            Some(r) => r,
            None => latest,
        },
    }
}

/// The error of pulling a path nothing matches.
pub open spec fn path_not_found_message(q: Seq<char>) -> Seq<char> {
    "Path '"@ + q + "' not found"@
}

/// The error of pulling at a commit the server does not know.
pub open spec fn commit_not_found_message(h: Seq<char>) -> Seq<char> {
    "Commit "@ + h + " not found"@
}

/// The targets of a pull, or why there are none.
pub open spec fn pull_targets_of(
    q: Seq<char>,
    rev: Option<u32>,
    commit: Option<Seq<char>>,
    candidates: Seq<(Seq<char>, Seq<char>, u32)>,
    commits: Map<Seq<char>, Commit>,
) -> Result<Seq<(Seq<char>, Seq<char>, u32)>, Seq<char>> {
    if q != "*"@ && candidates.len() == 0 {
        Err(path_not_found_message(q))
    } else if commit is Some && !commits.dom().contains(commit->0) && candidates.len() > 0 {
        Err(commit_not_found_message(commit->0))
    } else {
        Ok(
            candidates.map_values(
                |t: (Seq<char>, Seq<char>, u32)| (t.0, t.1, target_revision(rev, commit, commits, t.1, t.2)),
            ),
        )
    }
}

/// The artifacts a pull fetches, with their revisions.
pub fn pull_targets(spec: &PullSpec, remote: &StrMap<Artifact>, commits: &StrMap<Commit>, local: &Index) -> (r: Result<Vec<PullTarget>, String>)
    ensures
        match pull_targets_of(
            spec.path@,
            spec.rev,
            spec.commit.deep_view(),
            pull_candidates_of(
                spec.path@,
                remote.pairs(),
                local.artifacts.pairs(),
                remote.vmap(),
                local.artifacts.vmap(),
            ),
            commits@,
        ) {
            Ok(ts) => r matches Ok(v) && target_views(v@) == ts,
            Err(msg) => r matches Err(m) && m@ == msg,
        },
{
    let cands = pull_candidates(spec.path.as_str(), remote, local);
    let ghost cv = target_views(cands@);
    if cands.len() == 0 && !same_text(spec.path.as_str(), "*") {
        let a = concat("Path '", spec.path.as_str());
        return Err(concat(a.as_str(), "' not found"));
    }
    let chosen: Option<&Commit> = match &spec.commit {
        None => None,
        Some(h) => match commits.get(h.as_str()) {
            Some(c) => Some(c),
            None => {
                if cands.len() > 0 {
                    let a = concat("Commit ", h.as_str());
                    return Err(concat(a.as_str(), " not found"));
                }
                None
            },
        },
    };
    let ghost f = |t: (Seq<char>, Seq<char>, u32)| (t.0, t.1, target_revision(spec.rev, spec.commit.deep_view(), commits@, t.1, t.2));
    let mut out: Vec<PullTarget> = Vec::new();
    let mut i: usize = 0;
    while i < cands.len()
        invariant
            i <= cands@.len(),
            cv == target_views(cands@),
            f == (|t: (Seq<char>, Seq<char>, u32)| (t.0, t.1, target_revision(spec.rev, spec.commit.deep_view(), commits@, t.1, t.2))),
            match spec.commit.deep_view() {
                Some(h) => cands@.len() > 0 ==> (chosen matches Some(c) && commits@.dom().contains(h)
                    && *c == commits@[h]),
                None => chosen is None,
            },
            target_views(out@) == cv.take(i as int).map_values(f),
        decreases cands@.len() - i,
    {
        let t = &cands[i];
        let rev = match chosen {
            Some(c) => match change_revision(&c.artifacts, t.id.as_str()) {
                Some(r) => r,
                None => t.rev,
            },
            None => match spec.rev {
                Some(r) => r,
                None => t.rev,
            },
        };
        assert(cv[i as int] == t@);
        assert(rev == target_revision(spec.rev, spec.commit.deep_view(), commits@, t.id@, t.rev));
        let ghost before = out@;
        out.push(PullTarget { path: t.path.clone(), id: t.id.clone(), rev });
        assert(cv.take(i + 1) =~= cv.take(i as int).push(cv[i as int]));
        assert(target_views(out@) =~= target_views(before).push(f(cv[i as int])));
        i += 1;
    }
    assert(cv.take(cv.len() as int) =~= cv);
    Ok(out)
}

/// The error of pulling over a file one holds the lock of.
pub open spec fn locked_by_you_message(path: Seq<char>) -> Seq<char> {
    "ERROR: File '"@ + path + "' is locked by you. Push or unlock before pulling to avoid losing local changes."@
}

/// The error of pulling an artifact the server does not list.
pub open spec fn details_missing_message(path: Seq<char>) -> Seq<char> {
    "Artifact details for "@ + path + " not found on server"@
}

/// The error of pulling a revision the artifact does not have.
pub open spec fn revision_missing_message(rev: u32, path: Seq<char>) -> Seq<char> {
    "Revision "@ + decimal(rev as nat) + " not found for "@ + path
}

/// Whether the first revision numbered `rev` is stored compressed; `None`
/// when there is no such revision.
pub open spec fn revision_compressed(revs: Seq<RevisionView>, rev: u32) -> Option<bool>
    decreases revs.len(),
{
    if revs.len() == 0 {
        None
    } else if revs[0].rev == rev {
        Some(revs[0].compressed)
    } else {
        revision_compressed(revs.drop_first(), rev)
    }
}

/// What the check before downloading one target says: whether its payload
/// is compressed, or why it cannot be pulled. A standard pull refuses a
/// file whose lock the index says the user holds.
pub open spec fn pull_check_of(
    standard: bool,
    local: Map<Seq<char>, IndexArtifactView>,
    username: Option<Seq<char>>,
    remote: Map<Seq<char>, crate::protocol::ArtifactView>,
    t: (Seq<char>, Seq<char>, u32),
) -> Result<bool, Seq<char>> {
    let (path, id, rev) = t;
    if standard && local.dom().contains(path) && local[path].locked && local[path].lock_owner == username {
        Err(locked_by_you_message(path))
    } else if !remote.dom().contains(id) {
        Err(details_missing_message(path))
    } else {
        match revision_compressed(remote[id].revisions, rev) {
            None => Err(revision_missing_message(rev, path)),
            Some(c) => Ok(c),
        }
    }
}

fn same_owner(a: &Option<String>, b: &Option<String>) -> (r: bool)
    ensures
        r == (a.deep_view() == b.deep_view()),
{
    match (a, b) {
        (Some(x), Some(y)) => same_text(x.as_str(), y.as_str()),
        (None, None) => true,
        _ => false,
    }
}

/// Checks one pull target before its download; tells whether its payload
/// is stored compressed.
pub fn check_pull_target(
    spec: &PullSpec,
    out_given: bool,
    local: &Index,
    username: &Option<String>,
    remote: &StrMap<Artifact>,
    target: &PullTarget,
) -> (r: Result<bool, String>)
    ensures
        match pull_check_of(spec.standard(out_given), local.artifacts.vmap(), username.deep_view(), remote.vmap(), target@) {
            Ok(c) => r == Ok::<bool, String>(c),
            Err(msg) => r matches Err(m) && m@ == msg,
        },
{
    let path = target.path.as_str();
    if spec.is_standard(out_given) {
        match local.artifacts.get(path) {
            Some(e) => {
                if e.locked && same_owner(&e.lock_owner, username) {
                    let a = concat("ERROR: File '", path);
                    return Err(concat(
                        a.as_str(),
                        "' is locked by you. Push or unlock before pulling to avoid losing local changes.",
                    ));
                }
            },
            None => {},
        }
    }
    let a = match remote.get(target.id.as_str()) {
        Some(a) => a,
        None => {
            let m = concat("Artifact details for ", path);
            return Err(concat(m.as_str(), " not found on server"));
        },
    };
    let ghost rv = a@.revisions;
    let mut i: usize = 0;
    assert(rv.skip(0) =~= rv);
    while i < a.revisions.len()
        invariant
            i <= a.revisions@.len(),
            rv == a@.revisions,
            revision_compressed(rv, target.rev) == revision_compressed(rv.skip(i as int), target.rev),
            remote@.dom().contains(target.id@),
            *a == remote@[target.id@],
            !(spec.standard(out_given) && local.artifacts.vmap().dom().contains(target.path@)
                && local.artifacts.vmap()[target.path@].locked
                && local.artifacts.vmap()[target.path@].lock_owner == username.deep_view()),
        decreases a.revisions@.len() - i,
    {
        assert(rv.skip(i as int)[0] == a.revisions@[i as int]@);
        if a.revisions[i].rev == target.rev {
            return Ok(a.revisions[i].compressed);
        }
        assert(rv.skip(i as int).drop_first() =~= rv.skip(i + 1));
        i += 1;
    }
    let digits = decimal_text(target.rev as u64);
    let m1 = concat("Revision ", digits.as_str());
    let m2 = concat(m1.as_str(), " not found for ");
    Err(concat(m2.as_str(), path))
}

/// Where a pulled target is written, relative to the working directory:
/// under the output path when one is given and it stands for a directory
/// (it is one, or several files or `*` are pulled), else at the output
/// path; without one, at the target's path, with `@<rev>` appended when a
/// revision or commit was pinned.
pub open spec fn pull_destination_of(
    q: Seq<char>,
    pinned: bool,
    out: Option<Seq<char>>,
    out_is_dir: bool,
    many: bool,
    path: Seq<char>,
    rev: u32,
) -> Seq<char> {
    match out {
        Some(o) => if q == "*"@ || out_is_dir || many {
            joined(o, path)
        } else {
            o
        },
        None => if pinned {
            path + "@"@ + decimal(rev as nat)
        } else {
            path
        },
    }
}

/// The path a pulled target is written to. `many` tells whether the pull
/// has more than one target.
pub fn pull_destination(spec: &PullSpec, out: &Option<String>, out_is_dir: bool, many: bool, target: &PullTarget) -> (d: String)
    ensures
        d@ == pull_destination_of(
            spec.path@,
            spec.rev is Some || spec.commit is Some,
            out.deep_view(),
            out_is_dir,
            many,
            target.path@,
            target.rev,
        ),
{
    match out {
        Some(o) => if same_text(spec.path.as_str(), "*") || out_is_dir || many {
            join_path(o.as_str(), target.path.as_str())
        } else {
            o.clone()
        },
        None => if spec.rev.is_some() || spec.commit.is_some() {
            let a = concat(target.path.as_str(), "@");
            let digits = decimal_text(target.rev as u64);
            concat(a.as_str(), digits.as_str())
        } else {
            target.path.clone()
        },
    }
}

/// The entry a standard pull leaves: the payload is present at the pulled
/// revision; a path not yet tracked becomes tracked, unlocked.
pub open spec fn pulled_entry(prev: Option<IndexArtifactView>, id: Seq<char>, rev: u32) -> IndexArtifactView {
    match prev {
        Some(e) => IndexArtifactView { local_state: ready_word(), revision: rev, ..e },
        None => IndexArtifactView {
            artifact_id: id,
            revision: rev,
            local_state: ready_word(),
            stage: unstaged_word(),
            locked: false,
            lock_owner: None,
            lock_generation: None,
            staged: None,
            moved_from: None,
        },
    }
}

/// Records a pulled target in the index.
pub fn record_pulled(index: &mut Index, target: &PullTarget)
    ensures
        final(index).artifacts.vmap() == old(index).artifacts.vmap().insert(
            target.path@,
            pulled_entry(
                if old(index).artifacts.vmap().dom().contains(target.path@) {
                    Some(old(index).artifacts.vmap()[target.path@])
                } else {
                    None
                },
                target.id@,
                target.rev,
            ),
        ),
        final(index).version == old(index).version,
        final(index).branch == old(index).branch,
        final(index).head == old(index).head,
        final(index).git_modules == old(index).git_modules,
{
    let entry = match index.artifacts.get(target.path.as_str()) {
        Some(e) => {
            let mut b = e.clone();
            b.local_state = ready_text();
            b.revision = target.rev;
            b
        },
        None => IndexArtifact {
            artifact_id: target.id.clone(),
            revision: target.rev,
            local_state: ready_text(),
            stage: unstaged_text(),
            locked: false,
            lock_owner: None,
            lock_generation: None,
            staged: None,
            moved_from: None,
        },
    };
    let ghost ev = entry@;
    index.artifacts.insert(target.path.clone(), entry);
    assert(index.artifacts.vmap() =~= old(index).artifacts.vmap().insert(target.path@, ev));
}

} // verus!
