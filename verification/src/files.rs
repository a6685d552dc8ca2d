//! Directory listings of a project's logical file tree: the direct children
//! of a directory, with lock holders, directories first and then by name.
use vstd::prelude::*;
use crate::server::AppState;
use crate::table::{distinct_keys, inserted, last_index_of, lemma_last_index_of, StrMap};
use crate::text::{
    chars_of, concat, first_char_index, first_index_of_char, has_prefix, owned, starts_with,
    substring,
};

verus! {

/// The query of a listing: the directory, the root when absent.
pub struct FileListQuery {
    pub path: Option<String>,
}

/// One child of a listed directory.
pub struct FileEntry {
    pub name: String,
    pub path: String,
    pub is_dir: bool,
    pub locked_by: Option<String>,
}

/// A listing entry as plain values.
pub struct FileEntryView {
    pub name: Seq<char>,
    pub path: Seq<char>,
    pub is_dir: bool,
    pub locked_by: Option<Seq<char>>,
}

impl View for FileEntry {
    type V = FileEntryView;

    open spec fn view(&self) -> FileEntryView {
        FileEntryView {
            name: self.name@,
            path: self.path@,
            is_dir: self.is_dir,
            locked_by: self.locked_by.deep_view(),
        }
    }
}

// ---------------------------------------------------------------------
// The model
// ---------------------------------------------------------------------

/// The directory prefix a listing matches paths against: empty for the
/// root, otherwise the directory with one trailing slash.
pub open spec fn dir_prefix(dir: Seq<char>) -> Seq<char> {
    if dir.len() == 0 {
        dir
    } else if dir.last() != '/' {
        dir.push('/')
    } else {
        dir
    }
}

/// The entry a stored path contributes to the listing of directory `pws`:
/// the file itself when it lies directly in the directory, the first
/// subdirectory on its way otherwise, nothing when it lies elsewhere.
pub open spec fn listing_entry(path: Seq<char>, pws: Seq<char>) -> Option<(Seq<char>, FileEntryView)> {
    if !starts_with(path, pws) {
        None
    } else {
        let rel = path.skip(pws.len() as int);
        if rel.len() == 0 {
            None
        } else {
            let slash = first_index_of_char(rel, '/');
            if slash < 0 {
                Some((rel, FileEntryView { name: rel, path, is_dir: false, locked_by: None }))
            } else {
                let d = rel.take(slash);
                Some((d, FileEntryView { name: d, path: pws + d, is_dir: true, locked_by: None }))
            }
        }
    }
}

/// The listing entries keyed by name after visiting `paths` in order; a
/// later entry with a taken name replaces the earlier one.
pub open spec fn listing_pairs(paths: Seq<Seq<char>>, pws: Seq<char>) -> Seq<(Seq<char>, FileEntryView)>
    decreases paths.len(),
{
    if paths.len() == 0 {
        Seq::empty()
    } else {
        let prev = listing_pairs(paths.drop_last(), pws);
        match listing_entry(paths.last(), pws) {
            None => prev,
            Some((n, e)) => inserted(prev, n, e),
        }
    }
}

/// The listing entries after recording the lock rows in order: a row for
/// a listed file sets its lock holder.
pub open spec fn locked_pairs(
    pairs: Seq<(Seq<char>, FileEntryView)>,
    locks: Seq<(Seq<char>, Option<Seq<char>>)>,
    pws: Seq<char>,
) -> Seq<(Seq<char>, FileEntryView)>
    decreases locks.len(),
{
    if locks.len() == 0 {
        pairs
    } else {
        let prev = locked_pairs(pairs, locks.drop_last(), pws);
        let key = locks.last().0.skip(pws.len() as int);
        let i = last_index_of(prev, key);
        if i >= 0 {
            prev.update(i, (prev[i].0, FileEntryView { locked_by: locks.last().1, ..prev[i].1 }))
        } else {
            prev
        }
    }
}

/// `a` is strictly before `b` in character order.
pub open spec fn text_lt(a: Seq<char>, b: Seq<char>) -> bool
    decreases a.len(),
{
    if a.len() == 0 {
        b.len() > 0
    } else if b.len() == 0 {
        false
    } else if a[0] != b[0] {
        (a[0] as int) < (b[0] as int)
    } else {
        text_lt(a.drop_first(), b.drop_first())
    }
}

/// Listing order: directories first, then by name.
pub open spec fn entry_precedes(a: FileEntryView, b: FileEntryView) -> bool {
    (a.is_dir && !b.is_dir) || (a.is_dir == b.is_dir && text_lt(a.name, b.name))
}

/// Each entry comes strictly before the next.
pub open spec fn listing_sorted(s: Seq<FileEntryView>) -> bool {
    forall|i: int, j: int| 0 <= i < j < s.len() ==> entry_precedes(#[trigger] s[i], #[trigger] s[j])
}

/// The views of a sequence of entries.
pub open spec fn entry_views(s: Seq<FileEntry>) -> Seq<FileEntryView> {
    s.map_values(|e: FileEntry| e@)
}

/// The views of a table of entries, keys kept.
pub open spec fn view_pairs(p: Seq<(Seq<char>, FileEntry)>) -> Seq<(Seq<char>, FileEntryView)> {
    p.map_values(|e: (Seq<char>, FileEntry)| (e.0, e.1@))
}

// ---------------------------------------------------------------------
// Lemmas
// ---------------------------------------------------------------------

/// No text comes before itself.
pub proof fn lemma_text_lt_irreflexive(a: Seq<char>)
    ensures
        !text_lt(a, a),
    decreases a.len(),
{
    if a.len() > 0 {
        lemma_text_lt_irreflexive(a.drop_first());
    }
}

/// Of two different texts one comes before the other.
pub proof fn lemma_text_lt_total(a: Seq<char>, b: Seq<char>)
    requires
        a != b,
    ensures
        text_lt(a, b) || text_lt(b, a),
    decreases a.len(),
{
    if a.len() > 0 && b.len() > 0 && a[0] == b[0] {
        if a.drop_first() == b.drop_first() {
            assert(a =~= seq![a[0]] + a.drop_first());
            assert(b =~= seq![b[0]] + b.drop_first());
            assert(a =~= b);
        } else {
            lemma_text_lt_total(a.drop_first(), b.drop_first());
        }
    } else if a.len() > 0 && b.len() > 0 {
        assert((a[0] as int) != (b[0] as int));
    } else if a.len() == 0 && b.len() == 0 {
        assert(a =~= b);
    }
}

/// Character order is transitive.
pub proof fn lemma_text_lt_transitive(a: Seq<char>, b: Seq<char>, c: Seq<char>)
    requires
        text_lt(a, b),
        text_lt(b, c),
    ensures
        text_lt(a, c),
    decreases a.len(),
{
    if a.len() > 0 && b.len() > 0 && c.len() > 0 && a[0] == b[0] && b[0] == c[0] {
        lemma_text_lt_transitive(a.drop_first(), b.drop_first(), c.drop_first());
    }
}

/// Of two texts at most one comes before the other.
pub proof fn lemma_text_lt_asymmetric(a: Seq<char>, b: Seq<char>)
    requires
        text_lt(a, b),
    ensures
        !text_lt(b, a),
    decreases a.len(),
{
    if a.len() > 0 && b.len() > 0 && a[0] == b[0] {
        lemma_text_lt_asymmetric(a.drop_first(), b.drop_first());
    }
}

proof fn lemma_precedes_total(a: FileEntryView, b: FileEntryView)
    requires
        a.name != b.name,
    ensures
        entry_precedes(a, b) || entry_precedes(b, a),
{
    lemma_text_lt_total(a.name, b.name);
}

proof fn lemma_precedes_transitive(a: FileEntryView, b: FileEntryView, c: FileEntryView)
    requires
        entry_precedes(a, b),
        entry_precedes(b, c),
    ensures
        entry_precedes(a, c),
{
    if a.is_dir == b.is_dir && b.is_dir == c.is_dir {
        lemma_text_lt_transitive(a.name, b.name, c.name);
    }
}

proof fn lemma_last_index_views(p: Seq<(Seq<char>, FileEntry)>, k: Seq<char>)
    ensures
        last_index_of(view_pairs(p), k) == last_index_of(p, k),
    decreases p.len(),
{
    if p.len() > 0 {
        lemma_last_index_views(p.drop_last(), k);
        assert(view_pairs(p).drop_last() =~= view_pairs(p.drop_last()));
    }
}

proof fn lemma_inserted_views(p: Seq<(Seq<char>, FileEntry)>, k: Seq<char>, v: FileEntry)
    ensures
        view_pairs(inserted(p, k, v)) == inserted(view_pairs(p), k, v@),
{
    lemma_last_index_views(p, k);
    lemma_last_index_of(p, k);
    assert(view_pairs(inserted(p, k, v)) =~= inserted(view_pairs(p), k, v@));
}

// ---------------------------------------------------------------------
// Executable functions
// ---------------------------------------------------------------------

/// The prefix the listing of `dir` matches paths against.
pub fn listing_prefix(dir: Option<&str>) -> (p: String)
    ensures
        p@ == dir_prefix(
            match dir {
                Some(d) => d@,
                None => Seq::<char>::empty(),
            },
        ),
{
    match dir {
        None => String::new(),
        Some(d) => {
            let cs = chars_of(d);
            if cs.len() == 0 {
                String::new()
            } else if cs[cs.len() - 1] != '/' {
                proof {
                    reveal_strlit("/");
                }
                concat(d, "/")
            } else {
                owned(d)
            }
        },
    }
}

/// The entry `path` contributes to the listing of directory `pws`.
pub fn listing_entry_of(path: &str, pws: &str) -> (r: Option<(String, FileEntry)>)
    ensures
        match r {
            Some((n, e)) => listing_entry(path@, pws@) == Some((n@, e@)),
            None => listing_entry(path@, pws@) is None,
        },
{
    if !has_prefix(path, pws) {
        return None;
    }
    let cs = chars_of(path);
    let start = chars_of(pws).len();
    let rel = substring(&cs, start, cs.len());
    assert(rel@ == path@.skip(pws@.len() as int));
    let rs = chars_of(rel.as_str());
    if rs.len() == 0 {
        return None;
    }
    match first_char_index(&rs, '/') {
        None => {
            let e = FileEntry { name: rel.clone(), path: owned(path), is_dir: false, locked_by: None };
            Some((rel, e))
        },
        Some(slash) => {
            let d = substring(&rs, 0, slash);
            assert(d@ == rel@.take(slash as int));
            let p = concat(pws, d.as_str());
            let e = FileEntry { name: d.clone(), path: p, is_dir: true, locked_by: None };
            Some((d, e))
        },
    }
}

/// The children of directory `pws` among the project's artifact paths,
/// keyed by name.
pub fn directory_entries(state: &AppState, pws: &str) -> (m: StrMap<FileEntry>)
    ensures
        view_pairs(m.pairs()) == listing_pairs(
            state.artifacts.pairs().map_values(|e: (Seq<char>, crate::protocol::Artifact)| e.0),
            pws@,
        ),
        distinct_keys(m.pairs()),
{
    let ghost keys = state.artifacts.pairs().map_values(
        |e: (Seq<char>, crate::protocol::Artifact)| e.0,
    );
    let mut m: StrMap<FileEntry> = StrMap::new();
    let mut i: usize = 0;
    assert(view_pairs(m.pairs()) =~= listing_pairs(keys.take(0), pws@));
    while i < state.artifacts.len()
        invariant
            i <= state.artifacts.pairs().len(),
            keys == state.artifacts.pairs().map_values(
                |e: (Seq<char>, crate::protocol::Artifact)| e.0,
            ),
            view_pairs(m.pairs()) == listing_pairs(keys.take(i as int), pws@),
            distinct_keys(m.pairs()),
        decreases state.artifacts.pairs().len() - i,
    {
        let path = state.artifacts.key_at(i);
        assert(keys.take(i + 1).drop_last() =~= keys.take(i as int));
        assert(keys.take(i + 1).last() == path@);
        match listing_entry_of(path.as_str(), pws) {
            None => {},
            Some((n, e)) => {
                proof {
                    lemma_inserted_views(m.pairs(), n@, e);
                }
                m.insert(n, e);
            },
        }
        i += 1;
    }
    assert(keys.take(state.artifacts.pairs().len() as int) =~= keys);
    m
}

/// The paths of the files (not directories) in a listing, the ones whose
/// lock holders are looked up.
pub fn listed_file_paths(m: &StrMap<FileEntry>) -> (r: Vec<String>)
    ensures
        r@.map_values(|s: String| s@) == m.pairs().filter(|e: (Seq<char>, FileEntry)| !e.1.is_dir).map_values(
            |e: (Seq<char>, FileEntry)| e.1.path@,
        ),
{
    let ghost f = |e: (Seq<char>, FileEntry)| !e.1.is_dir;
    let mut r: Vec<String> = Vec::new();
    let mut i: usize = 0;
    while i < m.len()
        invariant
            i <= m.pairs().len(),
            f == (|e: (Seq<char>, FileEntry)| !e.1.is_dir),
            r@.map_values(|s: String| s@) == m.pairs().take(i as int).filter(f).map_values(
                |e: (Seq<char>, FileEntry)| e.1.path@,
            ),
        decreases m.pairs().len() - i,
    {
        proof {
            reveal_with_fuel(Seq::filter, 1);
        }
        assert(m.pairs().take(i + 1).drop_last() =~= m.pairs().take(i as int));
        let ghost pair = m.pairs()[i as int];
        assert(m.pairs().take(i + 1).last() == pair);
        assert(m.pairs().take(i + 1).filter(f) == if f(pair) {
            m.pairs().take(i as int).filter(f).push(pair)
        } else {
            m.pairs().take(i as int).filter(f)
        });
        let e = m.value_at(i);
        let ghost old_r = r@;
        if !e.is_dir {
            r.push(e.path.clone());
            assert(r@.map_values(|s: String| s@) =~= old_r.map_values(|s: String| s@).push(e.path@));
        }
        i += 1;
        assert(r@.map_values(|s: String| s@) =~= m.pairs().take(i as int).filter(f).map_values(
            |e: (Seq<char>, FileEntry)| e.1.path@,
        ));
    }
    assert(m.pairs().take(m.pairs().len() as int) =~= m.pairs());
    r
}

/// The views of lock rows.
pub open spec fn lock_rows(locks: Seq<(String, Option<String>)>) -> Seq<(Seq<char>, Option<Seq<char>>)> {
    locks.map_values(|l: (String, Option<String>)| (l.0@, l.1.deep_view()))
}

/// Records the lock holders of listed files. Each row names a file path
/// under the listed directory and its holder.
pub fn record_lock_holders(m: &mut StrMap<FileEntry>, locks: &[(String, Option<String>)], pws: &str)
    requires
        forall|i: int| 0 <= i < locks@.len() ==> starts_with(#[trigger] locks@[i].0@, pws@),
    ensures
        view_pairs(final(m).pairs()) == locked_pairs(view_pairs(old(m).pairs()), lock_rows(locks@), pws@),
        distinct_keys(old(m).pairs()) ==> distinct_keys(final(m).pairs()),
{
    let ghost rows = lock_rows(locks@);
    let ghost start = view_pairs(m.pairs());
    let ghost start_keys = m.pairs().map_values(|e: (Seq<char>, FileEntry)| e.0);
    let mut i: usize = 0;
    assert(rows.take(0) =~= Seq::<(Seq<char>, Option<Seq<char>>)>::empty());
    while i < locks.len()
        invariant
            i <= locks@.len(),
            rows == lock_rows(locks@),
            start == view_pairs(old(m).pairs()),
            start_keys == old(m).pairs().map_values(|e: (Seq<char>, FileEntry)| e.0),
            m.pairs().map_values(|e: (Seq<char>, FileEntry)| e.0) == start_keys,
            view_pairs(m.pairs()) == locked_pairs(start, rows.take(i as int), pws@),
            forall|k: int| 0 <= k < locks@.len() ==> starts_with(#[trigger] locks@[k].0@, pws@),
        decreases locks@.len() - i,
    {
        assert(rows.take(i + 1).drop_last() =~= rows.take(i as int));
        let ghost prev = view_pairs(m.pairs());
        let key = strip_known_prefix(locks[i].0.as_str(), pws);
        proof {
            lemma_last_index_views(m.pairs(), key@);
        }
        match m.find(key.as_str()) {
            None => {},
            Some(k) => {
                let mut e = FileEntry {
                    name: m.value_at(k).name.clone(),
                    path: m.value_at(k).path.clone(),
                    is_dir: m.value_at(k).is_dir,
                    locked_by: locks[i].1.clone(),
                };
                let ghost before = m.pairs();
                m.replace_at(k, e);
                assert(view_pairs(m.pairs()) =~= prev.update(
                    k as int,
                    (prev[k as int].0, FileEntryView { locked_by: rows[i as int].1, ..prev[k as int].1 }),
                ));
                assert(m.pairs().map_values(|e: (Seq<char>, FileEntry)| e.0) =~= before.map_values(
                    |e: (Seq<char>, FileEntry)| e.0,
                ));
            },
        }
        i += 1;
    }
    assert(rows.take(locks@.len() as int) =~= rows);
    proof {
        if distinct_keys(old(m).pairs()) {
            assert forall|a: int, b: int| 0 <= a < b < m.pairs().len() implies #[trigger] m.pairs()[a].0
                != #[trigger] m.pairs()[b].0 by {
                assert(m.pairs()[a].0 == start_keys[a]);
                assert(m.pairs()[b].0 == start_keys[b]);
                assert(old(m).pairs()[a].0 == start_keys[a]);
                assert(old(m).pairs()[b].0 == start_keys[b]);
            }
        }
    }
}

fn strip_known_prefix(s: &str, p: &str) -> (r: String)
    requires
        starts_with(s@, p@),
    ensures
        r@ == s@.skip(p@.len() as int),
{
    let cs = chars_of(s);
    let n = chars_of(p).len();
    substring(&cs, n, cs.len())
}

/// Whether `a` comes strictly before `b` in character order.
pub fn text_less(a: &str, b: &str) -> (r: bool)
    ensures
        r == text_lt(a@, b@),
{
    let x = chars_of(a);
    let y = chars_of(b);
    let mut k: usize = 0;
    assert(x@.skip(0) =~= x@);
    assert(y@.skip(0) =~= y@);
    while k < x.len() && k < y.len() && x[k] == y[k]
        invariant
            k <= x@.len(),
            k <= y@.len(),
            text_lt(x@, y@) == text_lt(x@.skip(k as int), y@.skip(k as int)),
        decreases x@.len() - k,
    {
        assert(x@.skip(k as int).drop_first() =~= x@.skip(k + 1));
        assert(y@.skip(k as int).drop_first() =~= y@.skip(k + 1));
        k += 1;
    }
    assert(x@.skip(0) =~= x@);
    assert(y@.skip(0) =~= y@);
    if k == x.len() {
        k < y.len()
    } else if k == y.len() {
        false
    } else {
        x[k] < y[k]
    }
}

fn precedes(a: &FileEntry, b: &FileEntry) -> (r: bool)
    ensures
        r == entry_precedes(a@, b@),
{
    (a.is_dir && !b.is_dir) || (a.is_dir == b.is_dir && text_less(a.name.as_str(), b.name.as_str()))
}

/// The entries in listing order: directories first, then by name. The
/// names must be distinct.
pub fn sort_listing(v: Vec<FileEntry>) -> (r: Vec<FileEntry>)
    requires
        forall|i: int, j: int| 0 <= i < j < v@.len() ==> #[trigger] v@[i].name@ != #[trigger] v@[j].name@,
    ensures
        listing_sorted(entry_views(r@)),
        entry_views(r@).to_multiset() == entry_views(v@).to_multiset(),
{
    broadcast use vstd::seq_lib::group_to_multiset_ensures;

    let ghost all = v@;
    let mut rest = v;
    let mut r: Vec<FileEntry> = Vec::new();
    let n = rest.len();
    let mut i: usize = 0;
    while i < n
        invariant
            n == all.len(),
            i <= n,
            rest@ == all.subrange(i as int, n as int),
            listing_sorted(entry_views(r@)),
            entry_views(r@).to_multiset() == entry_views(all.take(i as int)).to_multiset(),
            forall|a: int, b: int| 0 <= a < b < all.len() ==> #[trigger] all[a].name@ != #[trigger] all[b].name@,
        decreases n - i,
    {
        let x = rest.remove(0);
        assert(x == all[i as int]);
        let mut p: usize = 0;
        while p < r.len() && precedes(&r[p], &x)
            invariant
                p <= r@.len(),
                forall|k: int| 0 <= k < p ==> entry_precedes(#[trigger] r@[k]@, x@),
            decreases r@.len() - p,
        {
            p += 1;
        }
        let ghost old_r = entry_views(r@);
        proof {
            // `x` differs in name from every entry placed so far.
            assert forall|k: int| 0 <= k < old_r.len() implies #[trigger] old_r[k].name != x@.name by {
                old_r.to_multiset_ensures();
                entry_views(all.take(i as int)).to_multiset_ensures();
                assert(old_r.contains(old_r[k]));
                assert(old_r.to_multiset().count(old_r[k]) > 0);
                assert(entry_views(all.take(i as int)).to_multiset().count(old_r[k]) > 0);
                assert(entry_views(all.take(i as int)).contains(old_r[k]));
                let j = choose|j: int| 0 <= j < i && entry_views(all.take(i as int))[j] == old_r[k];
                assert(all[j].name@ == old_r[k].name);
            }
        }
        r.insert(p, x);
        proof {
            let nr = entry_views(r@);
            assert(nr =~= old_r.insert(p as int, x@));
            if p < old_r.len() {
                lemma_precedes_total(old_r[p as int], x@);
            }
            assert forall|a: int, b: int| 0 <= a < b < nr.len() implies entry_precedes(
                #[trigger] nr[a],
                #[trigger] nr[b],
            ) by {
                if b < p {
                    assert(nr[a] == old_r[a] && nr[b] == old_r[b]);
                } else if b == p {
                    assert(nr[a] == old_r[a]);
                } else if a == p {
                    assert(nr[b] == old_r[b - 1]);
                    if b - 1 > p {
                        lemma_precedes_transitive(x@, old_r[p as int], old_r[b - 1]);
                    }
                } else if a < p {
                    assert(nr[a] == old_r[a] && nr[b] == old_r[b - 1]);
                } else {
                    assert(nr[a] == old_r[a - 1] && nr[b] == old_r[b - 1]);
                }
            }
            assert(entry_views(all.take(i + 1)) =~= entry_views(all.take(i as int)).push(x@));
            vstd::seq_lib::to_multiset_insert(old_r, p as int, x@);
            vstd::seq_lib::to_multiset_build(entry_views(all.take(i as int)), x@);
        }
        i += 1;
    }
    assert(all.take(n as int) =~= all);
    r
}

/// The sorted listing of a table of entries with distinct names.
pub fn listing_of(m: StrMap<FileEntry>) -> (r: Vec<FileEntry>)
    requires
        distinct_keys(m.pairs()),
        forall|i: int| 0 <= i < m.pairs().len() ==> #[trigger] m.pairs()[i].1.name@ == m.pairs()[i].0,
    ensures
        listing_sorted(entry_views(r@)),
        entry_views(r@).to_multiset() == view_pairs(m.pairs()).map_values(
            |e: (Seq<char>, FileEntryView)| e.1,
        ).to_multiset(),
{
    let ghost pairs = m.pairs();
    let v = m.into_values();
    assert forall|i: int, j: int| 0 <= i < j < v@.len() implies #[trigger] v@[i].name@ != #[trigger] v@[j].name@ by {
        assert(v@[i] == pairs[i].1);
        assert(v@[j] == pairs[j].1);
    }
    assert(entry_views(v@) =~= view_pairs(pairs).map_values(|e: (Seq<char>, FileEntryView)| e.1));
    sort_listing(v)
}

} // verus!
