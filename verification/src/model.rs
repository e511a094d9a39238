//! Plain data handed between the viewer's core and its user interface:
//! open documents and the list of recently opened files.

use vstd::prelude::*;

verus! {

/// An open document as the user interface sees it.
pub struct DocumentInfo {
    /// Session key assigned by the document registry.
    pub id: u32,
    /// Absolute path of the file on disk.
    pub path: String,
    /// Number of pages.
    pub page_count: u16,
}

impl DocumentInfo {
    pub fn new(id: u32, path: String, page_count: u16) -> (d: Self)
        ensures
            d.id == id,
            d.path@ == path@,
            d.page_count == page_count,
    {
        DocumentInfo { id, path, page_count }
    }
}

/// How many recently opened files are remembered.
pub const MAX_RECENTS: usize = 10;

/// A recently opened file and when it was last opened (Unix milliseconds).
pub struct RecentEntry {
    pub path: String,
    pub last_opened_unix_ms: i64,
}

/// The value of a recent-files entry: its path and its time.
pub open spec fn recent_view(e: RecentEntry) -> (Seq<char>, i64) {
    (e.path@, e.last_opened_unix_ms)
}

/// The values of a list of recent-files entries.
pub open spec fn recents_view(s: Seq<RecentEntry>) -> Seq<(Seq<char>, i64)> {
    s.map_values(|e: RecentEntry| recent_view(e))
}

/// Entries of files other than `path`.
pub open spec fn other_path(path: Seq<char>) -> spec_fn((Seq<char>, i64)) -> bool {
    |e: (Seq<char>, i64)| e.0 != path
}

/// The list after `path` is opened at time `now`: that file first, then the
/// other files in their previous order, at most `MAX_RECENTS` in all.
pub open spec fn recents_after_open(
    list: Seq<(Seq<char>, i64)>,
    path: Seq<char>,
    now: i64,
) -> Seq<(Seq<char>, i64)> {
    let all = seq![(path, now)] + list.filter(other_path(path));
    if all.len() > MAX_RECENTS {
        all.take(MAX_RECENTS as int)
    } else {
        all
    }
}

/// Records that `path` was opened at `now_unix_ms`: it moves to the front
/// with that time, any older entry for it leaves, and the list keeps at most
/// `MAX_RECENTS` entries.
pub fn record_recent(entries: &Vec<RecentEntry>, path: &str, now_unix_ms: i64) -> (r: Vec<
    RecentEntry,
>)
    ensures
        recents_view(r@) == recents_after_open(recents_view(entries@), path@, now_unix_ms),
{
    let ghost list = recents_view(entries@);
    let ghost keep = other_path(path@);
    let opened = String::from_str(path);
    let mut r: Vec<RecentEntry> = Vec::new();
    r.push(RecentEntry { path: opened, last_opened_unix_ms: now_unix_ms });
    let target = String::from_str(path);
    let n = entries.len();
    let mut i: usize = 0;
    proof {
        assert(list.take(0).filter(keep) =~= Seq::<(Seq<char>, i64)>::empty()) by {
            reveal(Seq::filter);
        }
        assert(recents_view(r@) =~= seq![(path@, now_unix_ms)]);
    }
    while i < n && r.len() < MAX_RECENTS
        invariant
            0 <= i <= n,
            n == entries@.len(),
            list == recents_view(entries@),
            keep == other_path(path@),
            target@ == path@,
            1 <= r@.len() <= MAX_RECENTS,
            recents_view(r@) == seq![(path@, now_unix_ms)] + list.take(i as int).filter(keep),
        decreases n - i,
    {
        let same = entries[i].path == target;
        proof {
            assert(list.take(i + 1) =~= list.take(i as int).push(list[i as int]));
            list.take(i as int).lemma_filter_push(list[i as int], keep);
            assert(list[i as int] == recent_view(entries@[i as int]));
        }
        if !same {
            let ghost before = r@;
            r.push(
                RecentEntry {
                    path: entries[i].path.clone(),
                    last_opened_unix_ms: entries[i].last_opened_unix_ms,
                },
            );
            proof {
                assert(r@.drop_last() =~= before);
                assert(recents_view(r@) =~= recents_view(before).push(list[i as int]));
            }
        }
        i += 1;
    }
    proof {
        let all = seq![(path@, now_unix_ms)] + list.filter(keep);
        broadcast use vstd::seq_lib::group_filter_ensures;

        if i == n {
            assert(list.take(n as int) =~= list);
        } else {
            // the list is full: the rest of `all` is cut off
            assert(list.take(i as int).filter(keep) + list.skip(i as int).filter(keep)
                == list.filter(keep)) by {
                assert(list =~= list.take(i as int) + list.skip(i as int));
                Seq::filter_distributes_over_add(list.take(i as int), list.skip(i as int), keep);
            }
            assert(recents_view(r@).len() == MAX_RECENTS);
            assert(all.take(MAX_RECENTS as int) =~= recents_view(r@));
        }
    }
    r
}

/// Filtering a sequence whose elements all pass leaves it unchanged.
pub(crate) proof fn lemma_filter_all_pass<A>(s: Seq<A>, p: spec_fn(A) -> bool)
    requires
        forall|i: int| 0 <= i < s.len() ==> p(#[trigger] s[i]),
    ensures
        s.filter(p) == s,
    decreases s.len(),
{
    reveal(Seq::filter);
    if s.len() > 0 {
        lemma_filter_all_pass(s.drop_last(), p);
        assert(s.drop_last().push(s.last()) =~= s);
    }
}

/// No two entries of the list are for the same file.
pub open spec fn distinct_paths(l: Seq<(Seq<char>, i64)>) -> bool {
    forall|i: int, j: int| 0 <= i < j < l.len() ==> #[trigger] l[i].0 != #[trigger] l[j].0
}

proof fn lemma_filter_distinct(l: Seq<(Seq<char>, i64)>, p: spec_fn((Seq<char>, i64)) -> bool)
    requires
        distinct_paths(l),
    ensures
        distinct_paths(l.filter(p)),
    decreases l.len(),
{
    reveal(Seq::filter);
    if l.len() > 0 {
        let d = l.drop_last();
        assert(distinct_paths(d)) by {
            assert forall|i: int, j: int| 0 <= i < j < d.len() implies #[trigger] d[i].0
                != #[trigger] d[j].0 by {
                assert(d[i] == l[i] && d[j] == l[j]);
            }
        }
        lemma_filter_distinct(d, p);
        let f = d.filter(p);
        if p(l.last()) {
            let g = f.push(l.last());
            assert forall|i: int, j: int| 0 <= i < j < g.len() implies #[trigger] g[i].0
                != #[trigger] g[j].0 by {
                if j == g.len() - 1 {
                    assert(g[i] == f[i]);
                    assert(f.contains(f[i]));
                    d.lemma_filter_contains_rev(p, f[i]);
                    assert(d.contains(g[i]));
                    let k = choose|k: int| 0 <= k < d.len() && d[k] == g[i];
                    assert(l[k] == d[k]);
                    assert(l[l.len() - 1] == l.last());
                } else {
                    assert(g[i] == f[i] && g[j] == f[j]);
                }
            }
        }
    }
}

/// The list after opening a file: at most `MAX_RECENTS` entries, that file
/// first with the time it was opened, and no other entry for it.
pub proof fn law_recents_shape(l: Seq<(Seq<char>, i64)>, path: Seq<char>, now: i64)
    ensures
        recents_after_open(l, path, now).len() <= MAX_RECENTS,
        recents_after_open(l, path, now)[0] == (path, now),
        forall|i: int|
            1 <= i < recents_after_open(l, path, now).len() ==> #[trigger] recents_after_open(
                l,
                path,
                now,
            )[i].0 != path,
{
    broadcast use vstd::seq_lib::group_filter_ensures;

    let f = l.filter(other_path(path));
    let all = seq![(path, now)] + f;
    assert forall|i: int| 1 <= i < all.len() implies #[trigger] all[i].0 != path by {
        assert(all[i] == f[i - 1]);
    }
}

/// Opening a file changes no other entry: every entry after the first is an
/// entry of the previous list, unchanged (same path, same last-opened
/// time); and while the list is not full, every previous entry for another
/// file is still there.
pub proof fn law_recents_keep_others(l: Seq<(Seq<char>, i64)>, path: Seq<char>, now: i64)
    ensures
        forall|i: int|
            1 <= i < recents_after_open(l, path, now).len() ==> l.contains(
                #[trigger] recents_after_open(l, path, now)[i],
            ),
        recents_after_open(l, path, now).len() < MAX_RECENTS ==> forall|j: int|
            0 <= j < l.len() && (#[trigger] l[j]).0 != path ==> recents_after_open(l, path, now).contains(
                l[j],
            ),
{
    let p = other_path(path);
    let f = l.filter(p);
    let all = seq![(path, now)] + f;
    let r = recents_after_open(l, path, now);
    assert forall|i: int| 1 <= i < r.len() implies l.contains(#[trigger] r[i]) by {
        assert(r[i] == all[i]);
        assert(all[i] == f[i - 1]);
        l.lemma_filter_contains_rev(p, f[i - 1]);
    }
    if r.len() < MAX_RECENTS {
        assert(r == all);
        assert forall|j: int| 0 <= j < l.len() && (#[trigger] l[j]).0 != path implies r.contains(l[j]) by {
            l.lemma_filter_contains(p, j);
            let k = choose|k: int| 0 <= k < f.len() && f[k] == l[j];
            assert(all[k + 1] == l[j]);
        }
    }
}

/// If no file appears twice in the list, none appears twice after opening
/// one.
pub proof fn law_recents_distinct(l: Seq<(Seq<char>, i64)>, path: Seq<char>, now: i64)
    requires
        distinct_paths(l),
    ensures
        distinct_paths(recents_after_open(l, path, now)),
{
    broadcast use vstd::seq_lib::group_filter_ensures;

    let f = l.filter(other_path(path));
    lemma_filter_distinct(l, other_path(path));
    let all = seq![(path, now)] + f;
    assert(distinct_paths(all)) by {
        assert forall|i: int, j: int| 0 <= i < j < all.len() implies #[trigger] all[i].0
            != #[trigger] all[j].0 by {
            if i == 0 {
                assert(all[j] == f[j - 1]);
            } else {
                assert(all[i] == f[i - 1] && all[j] == f[j - 1]);
            }
        }
    }
    let r = recents_after_open(l, path, now);
    assert forall|i: int, j: int| 0 <= i < j < r.len() implies #[trigger] r[i].0 != #[trigger] r[j].0 by {
        assert(r[i] == all[i] && r[j] == all[j]);
    }
}

/// Opening the same file twice leaves the list as if it had been opened
/// once, at the later time.
pub proof fn law_recents_reopen(l: Seq<(Seq<char>, i64)>, path: Seq<char>, t1: i64, t2: i64)
    ensures
        recents_after_open(recents_after_open(l, path, t1), path, t2) == recents_after_open(
            l,
            path,
            t2,
        ),
{
    let p = other_path(path);
    let f = l.filter(p);
    let g = if f.len() > MAX_RECENTS - 1 {
        f.take(MAX_RECENTS - 1)
    } else {
        f
    };
    let x = recents_after_open(l, path, t1);
    assert(x =~= seq![(path, t1)] + g);
    assert forall|i: int| 0 <= i < g.len() implies p(#[trigger] g[i]) by {
        assert(g[i] == f[i]);
        l.lemma_filter_pred(p, i);
    }
    lemma_filter_all_pass(g, p);
    let one = seq![(path, t1)];
    assert(one.filter(p) =~= Seq::<(Seq<char>, i64)>::empty()) by {
        reveal(Seq::filter);
        let e = one.drop_last();
        assert(e.len() == 0);
        assert(e.filter(p) == e);
        assert(!p(one.last()));
        assert(one.filter(p) == e.filter(p));
    }
    Seq::filter_distributes_over_add(seq![(path, t1)], g, p);
    assert(x.filter(p) =~= g);
    assert(recents_after_open(x, path, t2) =~= seq![(path, t2)] + g);
    assert(recents_after_open(l, path, t2) =~= seq![(path, t2)] + g);
}

} // verus!
