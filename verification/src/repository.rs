//! The client's repository layout under `.rig/`: configuration, the HEAD
//! pointer and branch refs.
use vstd::prelude::*;
use crate::files::{lemma_text_lt_irreflexive, lemma_text_lt_transitive, text_less, text_lt};
use crate::text::{
    concat, is_white_space, join_path, joined, starts_with, strip_prefix, trim_end, trim_start,
    trim_text, trimmed,
};

verus! {

/// The local configuration: project, server and user name.
pub struct Config {
    pub project: String,
    pub server_url: Option<String>,
    pub username: Option<String>,
}

/// A repository, located by its `.rig` directory.
pub struct Repository {
    pub rig_dir: String,
}

/// The subcommands of `rig gitmodule`.
pub enum GitModuleCommands {
    /// Adds a module at `path`, pinned at `commit` or the remote HEAD.
    Add { url: String, path: String, commit: Option<String> },
    /// Pins the module at `path` to `commit`.
    Update { path: String, commit: String },
    /// Lists the modules.
    Status,
    /// Clones and checks out every module.
    Sync,
}

/// The text a HEAD file starts with when it points at a ref.
pub open spec fn ref_marker() -> Seq<char> {
    "ref: "@
}

/// The ref a HEAD file points at, when it is symbolic.
pub open spec fn head_ref_of(head: Seq<char>) -> Option<Seq<char>> {
    let h = trimmed(head);
    if starts_with(h, ref_marker()) {
        Some(h.skip(ref_marker().len() as int))
    } else {
        None
    }
}

/// The commit HEAD resolves to: the content of the ref it points at, or the
/// detached hash it holds.
pub open spec fn head_commit_of(head: Seq<char>, ref_content: Option<Seq<char>>) -> Option<Seq<char>> {
    match head_ref_of(head) {
        Some(_) => match ref_content {
            Some(c) => Some(trimmed(c)),
            None => None,
        },
        None => Some(trimmed(head)),
    }
}

/// Trimming text that starts and ends with no white space, followed by a
/// line break, gives the text back.
proof fn lemma_trim_line(s: Seq<char>)
    requires
        s.len() > 0 ==> !is_white_space(s[0]) && !is_white_space(s.last()),
    ensures
        trimmed(s + seq!['\n']) == s,
{
    let t = s + seq!['\n'];
    assert(is_white_space('\n'));
    if s.len() > 0 {
        assert(t[0] == s[0]);
        assert(trim_start(t) == t);
    } else {
        assert(t.drop_first() =~= Seq::<char>::empty());
        assert(trim_start(t.drop_first()) == t.drop_first());
        assert(trim_start(t) =~= t.drop_first());
    }
    assert(t.drop_last() =~= s);
    if s.len() > 0 {
        assert(trim_end(t) == trim_end(s));
        assert(trim_end(s) == s);
    } else {
        assert(trim_end(Seq::<char>::empty()) == Seq::<char>::empty());
    }
}

/// HEAD reads back what was written: after the ref `r` is written holding
/// commit `x` (with the line break the writer adds) and HEAD is written
/// pointing at `r`, HEAD names the ref `r` and resolves to `x`. `r` and `x`
/// are taken without surrounding white space, as refs and commit hashes
/// are; `r` is not empty.
pub proof fn head_reads_back_written_ref(r: Seq<char>, x: Seq<char>)
    requires
        r.len() > 0,
        !is_white_space(r[0]),
        !is_white_space(r.last()),
        x.len() > 0 ==> !is_white_space(x[0]) && !is_white_space(x.last()),
    ensures
        head_ref_of(ref_marker() + r + seq!['\n']) == Some(r),
        head_commit_of(ref_marker() + r + seq!['\n'], Some(x + seq!['\n'])) == Some(x),
{
    reveal_strlit("ref: ");
    let line = ref_marker() + r;
    assert(line.len() > 0);
    assert(line[0] == 'r');
    assert(!is_white_space('r'));
    assert(line.last() == r.last());
    lemma_trim_line(line);
    assert(ref_marker() + r + seq!['\n'] == line + seq!['\n']);
    assert(line.take(ref_marker().len() as int) =~= ref_marker());
    assert(line.skip(ref_marker().len() as int) =~= r);
    lemma_trim_line(x);
}

impl Repository {
    /// Opens the repository whose root is `base_path`; `rig_dir_exists`
    /// tells whether `base_path/.rig` exists.
    pub fn open(base_path: &str, rig_dir_exists: bool) -> (r: Result<Repository, String>)
        ensures
            match r {
                Ok(repo) => rig_dir_exists && repo.rig_dir@ == joined(base_path@, ".rig"@),
                Err(msg) => !rig_dir_exists && msg@ == "Not a rig repository (no .rig directory found)"@,
            },
    {
        if !rig_dir_exists {
            return Err(String::from_str("Not a rig repository (no .rig directory found)"));
        }
        Ok(Repository { rig_dir: join_path(base_path, ".rig") })
    }

    /// The file of ref `ref_path`.
    pub fn ref_file(&self, ref_path: &str) -> (p: String)
        ensures
            p@ == joined(self.rig_dir@, ref_path@),
    {
        join_path(self.rig_dir.as_str(), ref_path)
    }

    /// The ref the HEAD file content points at, if it is symbolic.
    pub fn head_ref(head: &str) -> (r: Option<String>)
        ensures
            r.deep_view() == head_ref_of(head@),
    {
        let h = trim_text(head);
        strip_prefix(h.as_str(), "ref: ")
    }

    /// Resolves HEAD to a commit hash. `head` is the HEAD file's content
    /// and `ref_content` that of the ref it points at (`None` when that
    /// file does not exist); a detached HEAD is its own hash.
    pub fn head_commit(&self, head: &str, ref_content: Option<&str>) -> (r: Option<String>)
        ensures
            r.deep_view() == head_commit_of(
                head@,
                match ref_content {
                    Some(c) => Some(c@),
                    None => None,
                },
            ),
    {
        match Repository::head_ref(head) {
            Some(_) => match ref_content {
                Some(c) => Some(trim_text(c)),
                None => None,
            },
            None => Some(trim_text(head)),
        }
    }

    /// The HEAD file content that points at `ref_path`.
    pub fn head_line(ref_path: &str) -> (r: String)
        ensures
            r@ == ref_marker() + ref_path@,
    {
        concat("ref: ", ref_path)
    }
}

/// The ref of branch `name`.
pub open spec fn branch_ref_of(name: Seq<char>) -> Seq<char> {
    "refs/heads/"@ + name
}

/// The ref of branch `name`.
pub fn branch_ref(name: &str) -> (r: String)
    ensures
        r@ == branch_ref_of(name@),
{
    concat("refs/heads/", name)
}

/// The name the current branch has in a listing: the branch HEAD points
/// at, or nothing when HEAD is detached.
pub open spec fn current_branch_of(head: Seq<char>) -> Seq<char> {
    if starts_with(head, "ref: refs/heads/"@) {
        head.skip("ref: refs/heads/"@.len() as int)
    } else {
        Seq::empty()
    }
}

/// The lines of a branch listing: the current branch marked with `* `,
/// the others indented by two spaces.
pub fn branch_lines(branches: &[String], head: &str) -> (lines: Vec<String>)
    ensures
        lines@.len() == branches@.len(),
        forall|i: int|
            0 <= i < branches@.len() ==> #[trigger] lines@[i]@ == if branches@[i]@ == current_branch_of(head@) {
                "* "@ + branches@[i]@
            } else {
                "  "@ + branches@[i]@
            },
{
    let current = match strip_prefix(head, "ref: refs/heads/") {
        Some(c) => c,
        None => String::new(),
    };
    let mut lines: Vec<String> = Vec::new();
    let mut i: usize = 0;
    while i < branches.len()
        invariant
            i <= branches@.len(),
            current@ == current_branch_of(head@),
            lines@.len() == i,
            forall|j: int|
                0 <= j < i ==> #[trigger] lines@[j]@ == if branches@[j]@ == current_branch_of(head@) {
                    "* "@ + branches@[j]@
                } else {
                    "  "@ + branches@[j]@
                },
        decreases branches@.len() - i,
    {
        let line = if branches[i] == current {
            concat("* ", branches[i].as_str())
        } else {
            concat("  ", branches[i].as_str())
        };
        lines.push(line);
        i += 1;
    }
    lines
}

/// Each name is no greater than the names after it.
pub open spec fn names_sorted(s: Seq<Seq<char>>) -> bool {
    forall|i: int, j: int| 0 <= i < j < s.len() ==> !text_lt(#[trigger] s[j], #[trigger] s[i])
}

/// Names taken by their characters.
pub open spec fn name_views(v: Seq<String>) -> Seq<Seq<char>> {
    v.map_values(|s: String| s@)
}

/// The branch names in character order, as the branch list shows them.
pub fn sorted_names(v: Vec<String>) -> (r: Vec<String>)
    ensures
        names_sorted(name_views(r@)),
        name_views(r@).to_multiset() == name_views(v@).to_multiset(),
{
    broadcast use vstd::seq_lib::group_to_multiset_ensures;

    let ghost all = v@;
    let mut rest = v;
    let mut r: Vec<String> = Vec::new();
    let n = rest.len();
    let mut i: usize = 0;
    while i < n
        invariant
            n == all.len(),
            i <= n,
            rest@ == all.subrange(i as int, n as int),
            names_sorted(name_views(r@)),
            name_views(r@).to_multiset() == name_views(all.take(i as int)).to_multiset(),
        decreases n - i,
    {
        let x = rest.remove(0);
        assert(x == all[i as int]);
        let mut p: usize = 0;
        while p < r.len() && !text_less(x.as_str(), r[p].as_str())
            invariant
                p <= r@.len(),
                forall|k: int| 0 <= k < p ==> !text_lt(x@, #[trigger] r@[k]@),
            decreases r@.len() - p,
        {
            p += 1;
        }
        let ghost old_r = name_views(r@);
        let ghost stop = p < r@.len();
        assert(stop ==> text_lt(x@, old_r[p as int]));
        r.insert(p, x);
        proof {
            let nr = name_views(r@);
            assert(nr =~= old_r.insert(p as int, x@));
            assert forall|a: int, b: int| 0 <= a < b < nr.len() implies !text_lt(
                #[trigger] nr[b],
                #[trigger] nr[a],
            ) by {
                if b < p {
                    assert(nr[a] == old_r[a] && nr[b] == old_r[b]);
                } else if b == p {
                    assert(nr[a] == old_r[a]);
                } else if a == p {
                    assert(nr[b] == old_r[b - 1]);
                    if text_lt(old_r[b - 1], x@) {
                        lemma_text_lt_transitive(old_r[b - 1], x@, old_r[p as int]);
                        if b - 1 == p {
                            lemma_text_lt_irreflexive(old_r[p as int]);
                        }
                    }
                } else if a < p {
                    assert(nr[a] == old_r[a] && nr[b] == old_r[b - 1]);
                } else {
                    assert(nr[a] == old_r[a - 1] && nr[b] == old_r[b - 1]);
                }
            }
            assert(name_views(all.take(i + 1)) =~= name_views(all.take(i as int)).push(x@));
            vstd::seq_lib::to_multiset_insert(old_r, p as int, x@);
            vstd::seq_lib::to_multiset_build(name_views(all.take(i as int)), x@);
        }
        i += 1;
    }
    assert(all.take(n as int) =~= all);
    r
}

} // verus!
