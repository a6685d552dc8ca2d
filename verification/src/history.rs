//! History views: the lines of `rig log` and `rig blame`.
use vstd::prelude::*;
use crate::protocol::{Artifact, Commit, Revision};
use crate::sync::{change_revision, first_change_revision};
use crate::table::StrMap;
use crate::text::{concat, decimal, decimal_text, owned, push_char, same_text};

verus! {

/// `s` padded on the right with spaces to `width` characters, as the
/// format `{:<width}` writes it; longer text is left whole.
pub open spec fn padded(s: Seq<char>, width: nat) -> Seq<char> {
    if s.len() >= width {
        s
    } else {
        s + Seq::new((width - s.len()) as nat, |i: int| ' ')
    }
}

/// `s` padded on the right with spaces to `width` characters.
pub fn pad_right(s: &str, width: usize) -> (r: String)
    ensures
        r@ == padded(s@, width as nat),
{
    let mut r = owned(s);
    let n = crate::text::chars_of(s).len();
    if n >= width {
        return r;
    }
    let mut k: usize = n;
    while k < width
        invariant
            n <= k <= width,
            n == s@.len(),
            r@ == s@ + Seq::new((k - n) as nat, |i: int| ' '),
        decreases width - k,
    {
        let ghost before = r@;
        push_char(&mut r, ' ');
        k += 1;
        assert(r@ =~= s@ + Seq::new((k - n) as nat, |i: int| ' '));
    }
    r
}

// ---------------------------------------------------------------------
// Log
// ---------------------------------------------------------------------

/// The line `rig log` prints for `commit`: `<id> <message> - <author>`,
/// or, when the log follows one artifact, the commit's id, the revision it
/// records for the artifact, its message and author in aligned columns.
/// A commit that does not touch the followed artifact prints nothing.
pub open spec fn log_line_of(commit: Commit, artifact: Option<Seq<char>>) -> Option<Seq<char>> {
    match artifact {
        None => Some(commit.id@ + " "@ + commit.message@ + " - "@ + commit.author@),
        Some(a) => match first_change_revision(commit.artifacts@, a) {
            None => None,
            Some(r) => Some(
                padded(commit.id@, 40) + " "@ + padded(decimal(r as nat), 10) + " "@ + padded(
                    commit.message@,
                    30,
                ) + " "@ + padded(commit.author@, 15),
            ),
        },
    }
}

/// The log line of one commit; the walk goes on at its parent.
pub fn log_line(commit: &Commit, artifact: &Option<String>) -> (r: Option<String>)
    ensures
        r.deep_view() == log_line_of(*commit, artifact.deep_view()),
{
    match artifact {
        None => {
            let a = concat(commit.id.as_str(), " ");
            let b = concat(a.as_str(), commit.message.as_str());
            let c = concat(b.as_str(), " - ");
            Some(concat(c.as_str(), commit.author.as_str()))
        },
        Some(id) => match change_revision(&commit.artifacts, id.as_str()) {
            None => None,
            Some(rev) => {
                let c1 = pad_right(commit.id.as_str(), 40);
                let digits = decimal_text(rev as u64);
                let c2 = pad_right(digits.as_str(), 10);
                let c3 = pad_right(commit.message.as_str(), 30);
                let c4 = pad_right(commit.author.as_str(), 15);
                let a = concat(c1.as_str(), " ");
                let b = concat(a.as_str(), c2.as_str());
                let c = concat(b.as_str(), " ");
                let d = concat(c.as_str(), c3.as_str());
                let e = concat(d.as_str(), " ");
                Some(concat(e.as_str(), c4.as_str()))
            },
        },
    }
}

// ---------------------------------------------------------------------
// Blame
// ---------------------------------------------------------------------

/// The key of the first artifact whose path is `path`.
pub open spec fn first_path_key(pairs: Seq<(Seq<char>, Artifact)>, path: Seq<char>) -> Option<Seq<char>>
    decreases pairs.len(),
{
    if pairs.len() == 0 {
        None
    } else if pairs[0].1.path@ == path {
        Some(pairs[0].0)
    } else {
        first_path_key(pairs.drop_first(), path)
    }
}

/// The artifact `rig blame` reports on: the one keyed `query`, else the
/// first one whose path is `query`.
pub open spec fn blame_target_of(artifacts: StrMap<Artifact>, query: Seq<char>) -> Option<Seq<char>> {
    if artifacts@.dom().contains(query) {
        Some(query)
    } else {
        first_path_key(artifacts.pairs(), query)
    }
}

/// The artifact id an artifact id or path names.
pub fn blame_target(artifacts: &StrMap<Artifact>, query: &str) -> (r: Option<String>)
    ensures
        r.deep_view() == blame_target_of(*artifacts, query@),
        r matches Some(k) ==> artifacts@.dom().contains(k@),
{
    if artifacts.contains_key(query) {
        return Some(owned(query));
    }
    let ghost ps = artifacts.pairs();
    let mut i: usize = 0;
    assert(ps.skip(0) =~= ps);
    while i < artifacts.len()
        invariant
            i <= ps.len(),
            ps == artifacts.pairs(),
            !artifacts@.dom().contains(query@),
            first_path_key(ps, query@) == first_path_key(ps.skip(i as int), query@),
        decreases ps.len() - i,
    {
        assert(ps.skip(i as int)[0] == ps[i as int]);
        if same_text(artifacts.value_at(i).path.as_str(), query) {
            let k = artifacts.key_at(i).clone();
            proof {
                crate::table::lemma_last_index_of(ps, ps[i as int].0);
            }
            return Some(k);
        }
        assert(ps.skip(i as int).drop_first() =~= ps.skip(i + 1));
        i += 1;
    }
    None
}

/// The message of the first commit whose change to artifact `id` records
/// revision `rev`, or `Unknown`.
pub open spec fn introducing_message(commits: Seq<(Seq<char>, Commit)>, id: Seq<char>, rev: u32) -> Seq<char>
    decreases commits.len(),
{
    if commits.len() == 0 {
        "Unknown"@
    } else if first_change_revision(commits[0].1.artifacts@, id) == Some(rev) {
        commits[0].1.message@
    } else {
        introducing_message(commits.drop_first(), id, rev)
    }
}

/// The blame line of one revision: its number, hash and the message of the
/// commit that introduced it, in aligned columns.
pub open spec fn blame_line_of(commits: Seq<(Seq<char>, Commit)>, id: Seq<char>, r: Revision) -> Seq<char> {
    padded(decimal(r.rev as nat), 5) + " "@ + padded(r.hash@, 40) + " "@ + padded(
        introducing_message(commits, id, r.rev),
        30,
    )
}

fn introduced_by(commits: &StrMap<Commit>, id: &str, rev: u32) -> (m: String)
    ensures
        m@ == introducing_message(commits.pairs(), id@, rev),
{
    let ghost ps = commits.pairs();
    let mut i: usize = 0;
    assert(ps.skip(0) =~= ps);
    while i < commits.len()
        invariant
            i <= ps.len(),
            ps == commits.pairs(),
            introducing_message(ps, id@, rev) == introducing_message(ps.skip(i as int), id@, rev),
        decreases ps.len() - i,
    {
        assert(ps.skip(i as int)[0] == ps[i as int]);
        let c = commits.value_at(i);
        if change_revision(&c.artifacts, id) == Some(rev) {
            return c.message.clone();
        }
        assert(ps.skip(i as int).drop_first() =~= ps.skip(i + 1));
        i += 1;
    }
    String::from_str("Unknown")
}

/// The lines `rig blame` prints for artifact `id`, one per revision.
pub fn blame_lines(artifacts: &StrMap<Artifact>, commits: &StrMap<Commit>, id: &str) -> (lines: Vec<String>)
    requires
        artifacts@.dom().contains(id@),
    ensures
        lines@.len() == artifacts@[id@].revisions@.len(),
        forall|i: int|
            0 <= i < lines@.len() ==> #[trigger] lines@[i]@ == blame_line_of(
                commits.pairs(),
                id@,
                artifacts@[id@].revisions@[i],
            ),
{
    let a = artifacts.get(id).unwrap();
    let mut lines: Vec<String> = Vec::new();
    let mut i: usize = 0;
    while i < a.revisions.len()
        invariant
            i <= a.revisions@.len(),
            *a == artifacts@[id@],
            lines@.len() == i,
            forall|j: int|
                0 <= j < i ==> #[trigger] lines@[j]@ == blame_line_of(commits.pairs(), id@, a.revisions@[j]),
        decreases a.revisions@.len() - i,
    {
        let r = &a.revisions[i];
        let msg = introduced_by(commits, id, r.rev);
        let digits = decimal_text(r.rev as u64);
        let c1 = pad_right(digits.as_str(), 5);
        let c2 = pad_right(r.hash.as_str(), 40);
        let c3 = pad_right(msg.as_str(), 30);
        let x = concat(c1.as_str(), " ");
        let y = concat(x.as_str(), c2.as_str());
        let z = concat(y.as_str(), " ");
        lines.push(concat(z.as_str(), c3.as_str()));
        i += 1;
    }
    lines
}

} // verus!
