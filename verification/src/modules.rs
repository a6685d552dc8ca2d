//! Git modules pinned inside a workspace: reading the remote HEAD, moving a
//! module's pin and the `rig gitmodule status` table.
use vstd::prelude::*;
use crate::history::{pad_right, padded};
use crate::protocol::{GitModule, GitModuleView, Index};
use crate::table::StrMap;
use crate::text::{chars_of, concat, is_white_space, is_white_space_char, owned, substring, trim_start};

verus! {

/// The leading run of characters of `s` that are not white space.
pub open spec fn word_run(s: Seq<char>) -> Seq<char>
    decreases s.len(),
{
    if s.len() == 0 || is_white_space(s[0]) {
        Seq::empty()
    } else {
        seq![s[0]] + word_run(s.drop_first())
    }
}

/// The first white-space-separated word of `s`, as
/// `split_whitespace().next()` gives it.
pub open spec fn first_word(s: Seq<char>) -> Option<Seq<char>> {
    let t = trim_start(s);
    if t.len() == 0 {
        None
    } else {
        Some(word_run(t))
    }
}

/// The commit hash `git ls-remote <url> HEAD` prints first.
pub fn remote_head_hash(output: &str) -> (r: Option<String>)
    ensures
        r.deep_view() == first_word(output@),
{
    let cs = chars_of(output);
    let mut a: usize = 0;
    assert(cs@.skip(0) =~= cs@);
    while a < cs.len() && is_white_space_char(cs[a])
        invariant
            a <= cs.len(),
            trim_start(cs@) == trim_start(cs@.skip(a as int)),
        decreases cs.len() - a,
    {
        assert(cs@.skip(a as int).drop_first() =~= cs@.skip(a + 1));
        a += 1;
    }
    assert(trim_start(cs@.skip(a as int)) == cs@.skip(a as int));
    if a == cs.len() {
        return None;
    }
    let mut b: usize = a;
    assert(cs@.subrange(a as int, a as int) + word_run(cs@.skip(a as int)) =~= word_run(cs@.skip(a as int)));
    while b < cs.len() && !is_white_space_char(cs[b])
        invariant
            a <= b <= cs.len(),
            word_run(cs@.skip(a as int)) == cs@.subrange(a as int, b as int) + word_run(cs@.skip(b as int)),
        decreases cs.len() - b,
    {
        assert(cs@.skip(b as int).drop_first() =~= cs@.skip(b + 1));
        assert(cs@.skip(b as int)[0] == cs@[b as int]);
        assert(cs@.subrange(a as int, b + 1) =~= cs@.subrange(a as int, b as int) + seq![cs@[b as int]]);
        b += 1;
    }
    assert(word_run(cs@.skip(b as int)) =~= Seq::<char>::empty()) by {
        if b < cs.len() {
            assert(cs@.skip(b as int)[0] == cs@[b as int]);
        }
    }
    assert(word_run(cs@.skip(a as int)) =~= cs@.subrange(a as int, b as int));
    Some(substring(&cs, a, b))
}

/// The error of moving the pin of a module the index does not hold.
pub open spec fn module_missing_message(path: Seq<char>) -> Seq<char> {
    "Gitmodule at "@ + path + " not found"@
}

/// The module at `path` pinned to `commit` instead.
pub fn updated_module(index: &Index, path: &str, commit: &str) -> (r: Result<GitModule, String>)
    ensures
        match r {
            Ok(m) => index.git_modules@.dom().contains(path@) && m@ == (GitModuleView {
                commit: commit@,
                ..index.git_modules@[path@]@
            }),
            Err(msg) => !index.git_modules@.dom().contains(path@) && msg@ == module_missing_message(path@),
        },
{
    match index.git_modules.get(path) {
        Some(m) => {
            let mut n = m.clone();
            n.commit = owned(commit);
            Ok(n)
        },
        None => {
            let a = concat("Gitmodule at ", path);
            Err(concat(a.as_str(), " not found"))
        },
    }
}

/// The row of the module table for `m`: path, URL and commit in aligned
/// columns.
pub open spec fn module_row(m: GitModule) -> Seq<char> {
    padded(m.path@, 30) + " "@ + padded(m.url@, 50) + " "@ + padded(m.commit@, 40)
}

/// The rows of the module table, one per module in entry order.
pub fn module_rows(modules: &StrMap<GitModule>) -> (rows: Vec<String>)
    ensures
        rows@.len() == modules.pairs().len(),
        forall|i: int| 0 <= i < rows@.len() ==> #[trigger] rows@[i]@ == module_row(modules.pairs()[i].1),
{
    let mut rows: Vec<String> = Vec::new();
    let mut i: usize = 0;
    while i < modules.len()
        invariant
            i <= modules.pairs().len(),
            rows@.len() == i,
            forall|j: int| 0 <= j < i ==> #[trigger] rows@[j]@ == module_row(modules.pairs()[j].1),
        decreases modules.pairs().len() - i,
    {
        let m = modules.value_at(i);
        let c1 = pad_right(m.path.as_str(), 30);
        let c2 = pad_right(m.url.as_str(), 50);
        let c3 = pad_right(m.commit.as_str(), 40);
        let x = concat(c1.as_str(), " ");
        let y = concat(x.as_str(), c2.as_str());
        let z = concat(y.as_str(), " ");
        rows.push(concat(z.as_str(), c3.as_str()));
        i += 1;
    }
    rows
}

} // verus!
